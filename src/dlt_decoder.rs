//! The items of the DLT decoder crate that the library calls, with what it
//! relies on of them.
use vstd::prelude::*;
use crate::dlt_file::{DecodeResult, MessageKind};
use dlt_core::parse::DltParseError;

verus! {

/// The DLT pattern that starts every storage header.
pub open spec fn dlt_pattern() -> Seq<u8> {
    seq![0x44u8, 0x4Cu8, 0x54u8, 0x01u8]
}

/// Whether the DLT pattern starts at index `k` of `s`.
pub open spec fn pattern_at(s: Seq<u8>, k: int) -> bool {
    0 <= k && k + 4 <= s.len() && s.subrange(k, k + 4) == dlt_pattern()
}

#[verifier::external_type_specification]
#[verifier::external_body]
pub struct ExMessage(dlt_core::dlt::Message);

#[verifier::external_type_specification]
#[verifier::external_body]
pub struct ExProcessedDltFilterConfig(dlt_core::filtering::ProcessedDltFilterConfig);

#[verifier::external_type_specification]
pub struct ExParsedMessage(dlt_core::parse::ParsedMessage);

#[verifier::external_type_specification]
pub struct ExLogLevel(dlt_core::dlt::LogLevel);

#[verifier::external_type_specification]
pub struct ExStatisticRowInfo(dlt_core::statistics::StatisticRowInfo);

/// Whether `e` is one of the decoder's three errors.
pub open spec fn is_decode_error(e: DecodeResult) -> bool {
    ||| e matches DecodeResult::IncompleteParse
    ||| e matches DecodeResult::ParsingHickup(_)
    ||| e matches DecodeResult::Unrecoverable(_)
}

/// Whether `k` is the first index of `s` where the DLT pattern starts.
pub open spec fn first_pattern(s: Seq<u8>, k: int) -> bool {
    pattern_at(s, k) && forall|j: int| 0 <= j < k ==> !pattern_at(s, j)
}

/// Length of a standard header whose type byte is `t`.
pub open spec fn standard_header_len(t: u8) -> int {
    4 + (if t & 4u8 != 0 { 4int } else { 0int }) + (if t & 8u8 != 0 { 4int } else { 0int }) + (
    if t & 16u8 != 0 { 4int } else { 0int })
}

/// Length of all headers of a message whose type byte is `t`.
pub open spec fn all_headers_len(t: u8) -> int {
    standard_header_len(t) + if t & 1u8 != 0 { 10int } else { 0int }
}

/// The big-endian message length in the standard header at `h`.
pub open spec fn overall_len_at(c: Seq<u8>, h: int) -> int {
    (c[h + 2] as int) * 256 + (c[h + 3] as int)
}

/// Whether the message whose standard header starts at index `h` of `c`
/// may be a non-verbose, non-control message whose payload is shorter than
/// the 4 bytes of a message id, as far as `c` shows its headers. The decoder
/// does not handle such a message.
pub open spec fn short_id_payload_at(c: Seq<u8>, h: int) -> bool {
    &&& 0 <= h
    &&& h + 4 <= c.len()
    &&& all_headers_len(c[h]) <= overall_len_at(c, h)
    &&& overall_len_at(c, h) < all_headers_len(c[h]) + 4
    &&& ((c[h] & 1u8 != 0 && h + standard_header_len(c[h]) < c.len()) ==> (c[h
        + standard_header_len(c[h])] & 1u8 == 0 && (c[h + standard_header_len(c[h])] >> 1u8) & 7u8
        != 3))
}

/// Whether the decoder can be handed `c`: the message it would decode first
/// is not one with a payload too short for a message id.
pub open spec fn decoder_safe(c: Seq<u8>, with_storage_header: bool) -> bool {
    if with_storage_header {
        forall|k: int| first_pattern(c, k) ==> !short_id_payload_at(c, k + 16)
    } else {
        !short_id_payload_at(c, 0)
    }
}

/// Whether the message whose standard header starts at `h` may have a
/// payload too short for a message id.
pub fn short_id_payload(c: &[u8], h: usize) -> (b: bool)
    ensures
        b == short_id_payload_at(c@, h as int),
{
    let len = c.len();
    if h > len || len - h < 4 {
        return false;
    }
    let t = c[h];
    let ol: u64 = (c[h + 2] as u64) * 256 + (c[h + 3] as u64);
    let sl: u64 = 4 + (if t & 4u8 != 0 { 4u64 } else { 0u64 }) + (if t & 8u8 != 0 { 4u64 } else { 0u64 }) + (
    if t & 16u8 != 0 { 4u64 } else { 0u64 });
    let al: u64 = sl + if t & 1u8 != 0 { 10u64 } else { 0u64 };
    assert(sl == standard_header_len(t));
    assert(al == all_headers_len(t));
    assert(ol == overall_len_at(c@, h as int));
    if !(al <= ol && ol < al + 4) {
        return false;
    }
    if t & 1u8 != 0 && (sl as usize) < len - h {
        let x = c[h + sl as usize];
        x & 1u8 == 0 && (x >> 1u8) & 7u8 != 3
    } else {
        true
    }
}

/// Whether `c` can be handed to the decoder.
pub fn is_decoder_safe(c: &[u8], with_storage_header: bool) -> (b: bool)
    ensures
        b == decoder_safe(c@, with_storage_header),
{
    if !with_storage_header {
        return !short_id_payload(c, 0);
    }
    match forward_to_next_storage_header(c) {
        None => {
            assert forall|j: int| first_pattern(c@, j) implies !short_id_payload_at(c@, j + 16) by {
                assert(pattern_at(c@, j));
            }
            true
        },
        Some(k64) => {
            let k = k64 as usize;
            assert(pattern_at(c@, k64 as int));
            assert forall|j: int| first_pattern(c@, j) implies j == k64 by {
                if j < k64 {
                    assert(!pattern_at(c@, j));
                } else if j > k64 {
                    assert(pattern_at(c@, k64 as int));
                }
            }
            assert(first_pattern(c@, k64 as int));
            if c.len() - k < 20 {
                true
            } else {
                !short_id_payload(c, k + 16)
            }
        },
    }
}

/// The kind of a decoded message.
pub open spec fn kind_of(p: dlt_core::parse::ParsedMessage) -> MessageKind {
    match p {
        dlt_core::parse::ParsedMessage::Item(_) => MessageKind::Item,
        dlt_core::parse::ParsedMessage::FilteredOut(n) => MessageKind::FilteredOut(n),
        dlt_core::parse::ParsedMessage::Invalid => MessageKind::Invalid,
    }
}

/// What the decoder makes of `content` without a filter: the length of the
/// rest after the message and the message's kind, or its error.
pub uninterp spec fn decoded_of(content: Seq<u8>, with_storage_header: bool) -> Result<(usize, MessageKind), DecodeResult>;

/// Relies on `dlt_core::parse::dlt_message`: decodes the message at the head
/// of `content`; the rest it returns is a suffix of `content`, given here by
/// its length; its error is one of three kinds; without a filter the outcome
/// depends on `content` and `with_storage_header` alone. It subtracts 4 from
/// a short payload length unchecked, so such input is left out.
#[verifier::external_body]
pub(crate) fn dlt_message(
    content: &[u8],
    filter: Option<&dlt_core::filtering::ProcessedDltFilterConfig>,
    with_storage_header: bool,
) -> (r: Result<(usize, dlt_core::parse::ParsedMessage), DecodeResult>)
    requires
        decoder_safe(content@, with_storage_header),
    ensures
        r matches Ok((rest_len, _)) ==> rest_len <= content@.len(),
        r matches Err(e) ==> is_decode_error(e),
        filter.is_none() ==> match r {
            Ok((n, p)) => decoded_of(content@, with_storage_header) == Ok::<(usize, MessageKind), DecodeResult>((n, kind_of(p))),
            Err(e) => decoded_of(content@, with_storage_header) == Err::<(usize, MessageKind), DecodeResult>(e),
        },
{
    match dlt_core::parse::dlt_message(content, filter, with_storage_header) {
        Ok((rest, m)) => Ok((rest.len(), m)),
        Err(DltParseError::IncompleteParse { .. }) => Err(DecodeResult::IncompleteParse),
        Err(DltParseError::ParsingHickup(s)) => Err(DecodeResult::ParsingHickup(s)),
        Err(DltParseError::Unrecoverable(s)) => Err(DecodeResult::Unrecoverable(s)),
    }
}

/// What the row reader makes of `content`: the length of the rest after the
/// message and its row, or its error.
pub uninterp spec fn row_info_of(content: Seq<u8>, with_storage_header: bool) -> Result<(usize, dlt_core::statistics::StatisticRowInfo), DecodeResult>;

/// Relies on `dlt_core::statistics::dlt_statistic_row_info`: reads the ids and
/// level of the message at the head of `content`; the rest it returns is a
/// suffix of `content`, given here by its length; the outcome depends on
/// `content` and `with_storage_header` alone.
#[verifier::external_body]
pub(crate) fn dlt_statistic_row_info(content: &[u8], with_storage_header: bool) -> (r: Result<
    (usize, dlt_core::statistics::StatisticRowInfo),
    DecodeResult,
>)
    ensures
        r matches Ok((rest_len, _)) ==> rest_len <= content@.len(),
        r matches Err(e) ==> is_decode_error(e),
        r == row_info_of(content@, with_storage_header),
{
    match dlt_core::statistics::dlt_statistic_row_info(content, with_storage_header) {
        Ok((rest, info)) => Ok((rest.len(), info)),
        Err(DltParseError::IncompleteParse { .. }) => Err(DecodeResult::IncompleteParse),
        Err(DltParseError::ParsingHickup(s)) => Err(DecodeResult::ParsingHickup(s)),
        Err(DltParseError::Unrecoverable(s)) => Err(DecodeResult::Unrecoverable(s)),
    }
}

/// Relies on `dlt_core::parse::skip_storage_header`: it succeeds exactly when
/// `content` starts with the DLT pattern and holds the 16 bytes of a storage
/// header, and then skips those 16 bytes.
#[verifier::external_body]
pub(crate) fn skip_storage_header(content: &[u8]) -> (r: Option<u64>)
    ensures
        r.is_some() <==> (content@.len() >= 16 && pattern_at(content@, 0)),
        r.is_some() ==> r == Some(16u64),
{
    dlt_core::parse::skip_storage_header(content).ok().map(|(_, skipped)| skipped)
}

/// Relies on `dlt_core::parse::forward_to_next_storage_header`: the offset of
/// the first DLT pattern in `content`, if there is one.
#[verifier::external_body]
pub(crate) fn forward_to_next_storage_header(content: &[u8]) -> (r: Option<u64>)
    ensures
        r matches Some(k) ==> (pattern_at(content@, k as int) && forall|j: int| 0 <= j < k ==> !pattern_at(content@, j)),
        r.is_none() ==> forall|j: int| 0 <= j < content@.len() ==> !pattern_at(content@, j),
{
    dlt_core::parse::forward_to_next_storage_header(content).map(|(dropped, _)| dropped)
}

/// The size of the message at the head of `c`, storage header included:
/// there is one when `c` starts with a storage header, then holds a whole
/// standard header whose message length covers its headers, and then the
/// whole message.
pub open spec fn consume_len_of(c: Seq<u8>) -> Option<int> {
    if c.len() >= 20 && pattern_at(c, 0) && 16 + standard_header_len(c[16]) <= c.len()
        && all_headers_len(c[16]) <= overall_len_at(c, 16) && 16 + overall_len_at(c, 16) <= c.len() {
        Some(16 + overall_len_at(c, 16))
    } else {
        None
    }
}

/// Relies on `dlt_core::parse::dlt_consume_msg`: it skips the storage header,
/// reads the standard header, and takes the message length it gives.
#[verifier::external_body]
pub(crate) fn dlt_consume_msg(content: &[u8]) -> (r: Option<u64>)
    ensures
        r == match consume_len_of(content@) { Some(n) => Some(n as u64), None => None::<u64> },
{
    dlt_core::parse::dlt_consume_msg(content).ok().and_then(|(_, consumed)| consumed)
}

} // verus!
