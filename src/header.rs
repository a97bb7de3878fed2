use crate::range::{is_empty_range, ByteRange};
use vstd::prelude::*;

verus! {

/// Why a transfer could not go ahead.
#[derive(Clone, Copy, Debug, PartialEq, Eq, Structural)]
pub enum DownloadError {
    /// The resource locator was missing or could not be parsed.
    Argument,
    /// The metadata response reported no usable content length.
    SizeUnavailable,
    /// A worker's request, response or body stream failed.
    Transfer,
}

/// The ASCII code of decimal digit `d`.
pub open spec fn digit_char(d: nat) -> u8 {
    (48 + d) as u8
}

/// The decimal representation of `n`, most significant digit first, with no
/// leading zeros.
pub open spec fn decimal(n: nat) -> Seq<u8>
    decreases n,
{
    if n < 10 {
        seq![digit_char(n)]
    } else {
        decimal(n / 10).push(digit_char(n % 10))
    }
}

/// `"bytes="` as ASCII.
pub open spec fn bytes_prefix() -> Seq<u8> {
    seq![98u8, 121u8, 116u8, 101u8, 115u8, 61u8]
}

/// The value of the `Range` header that asks for a non-empty `r`:
/// `bytes=<start>-<last byte>`, or `bytes=<start>-` when `r` is open-ended.
pub open spec fn range_header_spec(r: ByteRange) -> Seq<u8> {
    let head = bytes_prefix() + decimal(r.start as nat).push(45u8);
    match r.end_exclusive {
        Some(e) => head + decimal((e - 1) as nat),
        None => head,
    }
}

/// Appends the decimal digits of `n` to `out`.
fn push_decimal(out: &mut Vec<u8>, n: u64)
    ensures
        final(out)@ == old(out)@ + decimal(n as nat),
    decreases n,
{
    if n >= 10 {
        push_decimal(out, n / 10);
    }
    let d: u8 = (n % 10) as u8;
    out.push(48u8 + d);
    proof {
        if n >= 10 {
            assert(old(out)@ + decimal(n as nat) =~= old(out)@ + decimal((n / 10) as nat) + seq![
                digit_char((n % 10) as nat),
            ]);
        } else {
            assert(decimal(n as nat) =~= seq![digit_char(n as nat)]);
        }
    }
}

/// The `Range` header value, as ASCII bytes, that requests the span `r`;
/// `None` when `r` holds no byte, since a `Range` header cannot ask for none.
pub fn range_header(r: &ByteRange) -> (v: Option<Vec<u8>>)
    ensures
        match v {
            None => is_empty_range(*r),
            Some(h) => !is_empty_range(*r) && h@ == range_header_spec(*r),
        },
{
    match r.end_exclusive {
        Some(e) => {
            if e <= r.start {
                return None;
            }
        },
        None => {},
    }
    let mut v: Vec<u8> = Vec::new();
    v.push(98u8);
    v.push(121u8);
    v.push(116u8);
    v.push(101u8);
    v.push(115u8);
    v.push(61u8);
    assert(v@ =~= bytes_prefix());
    push_decimal(&mut v, r.start);
    v.push(45u8);
    match r.end_exclusive {
        Some(e) => {
            push_decimal(&mut v, e - 1);
        },
        None => {},
    }
    Some(v)
}

pub open spec fn is_digit(b: u8) -> bool {
    48 <= b <= 57
}

/// The text is a non-empty run of ASCII decimal digits.
pub open spec fn is_decimal_text(s: Seq<u8>) -> bool {
    s.len() > 0 && forall|i: int| 0 <= i < s.len() ==> is_digit(#[trigger] s[i])
}

/// The number that a run of decimal digits spells.
pub open spec fn decimal_value(s: Seq<u8>) -> nat
    decreases s.len(),
{
    if s.len() == 0 {
        0
    } else {
        decimal_value(s.drop_last()) * 10 + (s.last() - 48) as nat
    }
}

/// Reads the content length from the raw value of the `Content-Length` header,
/// or `None` when the header is absent. The length is there only when the value
/// is a non-empty run of decimal digits whose number fits in 64 bits; otherwise
/// the result is `SizeUnavailable`.
pub fn parse_content_length(value: Option<&[u8]>) -> (r: Result<u64, DownloadError>)
    ensures
        match value {
            None => r == Err::<u64, DownloadError>(DownloadError::SizeUnavailable),
            Some(s) => if is_decimal_text(s@) && decimal_value(s@) <= u64::MAX {
                r == Ok::<u64, DownloadError>(decimal_value(s@) as u64)
            } else {
                r == Err::<u64, DownloadError>(DownloadError::SizeUnavailable)
            },
        },
{
    match value {
        None => Err(DownloadError::SizeUnavailable),
        Some(s) => match parse_decimal_u64(s) {
            Some(n) => Ok(n),
            None => Err(DownloadError::SizeUnavailable),
        },
    }
}

/// The number spelled by `s`, when `s` is a non-empty run of decimal digits
/// whose number fits in 64 bits.
fn parse_decimal_u64(s: &[u8]) -> (r: Option<u64>)
    ensures
        if is_decimal_text(s@) && decimal_value(s@) <= u64::MAX {
            r == Some(decimal_value(s@) as u64)
        } else {
            r is None
        },
{
    if s.len() == 0 {
        return None;
    }
    let mut acc: u64 = 0;
    let mut i: usize = 0;
    while i < s.len()
        invariant
            i <= s@.len(),
            forall|k: int| 0 <= k < i ==> is_digit(#[trigger] s@[k]),
            acc == decimal_value(s@.take(i as int)),
        decreases s@.len() - i,
    {
        let b: u8 = s[i];
        if b < 48 || b > 57 {
            assert(!is_digit(s@[i as int]));
            return None;
        }
        let d: u64 = (b - 48) as u64;
        assert(s@.take(i + 1).drop_last() =~= s@.take(i as int));
        if acc > (u64::MAX - d) / 10 {
            proof {
                if is_decimal_text(s@) {
                    lemma_decimal_value_prefix(s@, i + 1);
                }
            }
            return None;
        }
        acc = acc * 10 + d;
        i = i + 1;
    }
    assert(s@.take(i as int) =~= s@);
    Some(acc)
}

/// A longer run of digits never spells a smaller number than its prefix.
proof fn lemma_decimal_value_prefix(s: Seq<u8>, i: int)
    requires
        0 <= i <= s.len(),
        forall|k: int| 0 <= k < s.len() ==> is_digit(#[trigger] s[k]),
    ensures
        decimal_value(s.take(i)) <= decimal_value(s),
    decreases s.len(),
{
    if i < s.len() {
        lemma_decimal_value_prefix(s.drop_last(), i);
        assert(s.drop_last().take(i) =~= s.take(i));
    } else {
        assert(s.take(i) =~= s);
    }
}

} // verus!
