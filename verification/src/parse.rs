//! Parsing the server's reply to the `SIZE` query: the literal `SIZE `
//! followed by two decimal integers separated by one space and terminated
//! by CRLF.

use vstd::prelude::*;

verus! {

use crate::error::ClientError;

/// True for the ASCII bytes `0` through `9`.
pub open spec fn is_digit_byte(b: u8) -> bool {
    0x30 <= b && b <= 0x39
}

/// The numeric value of an ASCII digit byte.
pub open spec fn byte_val(b: u8) -> nat
    recommends
        is_digit_byte(b),
{
    (b - 0x30) as nat
}

/// Length of the longest prefix of `s` made of ASCII digit bytes.
pub open spec fn digit_run_bytes(s: Seq<u8>) -> nat
    decreases s.len(),
{
    if s.len() == 0 || !is_digit_byte(s[0]) {
        0
    } else {
        (1 + digit_run_bytes(s.drop_first())) as nat
    }
}

/// The numeric value of a sequence of ASCII digit bytes.
pub open spec fn dec_val_bytes(s: Seq<u8>) -> nat
    recommends
        forall|i: int| 0 <= i < s.len() ==> is_digit_byte(s[i]),
    decreases s.len(),
{
    if s.len() == 0 {
        0
    } else {
        dec_val_bytes(s.drop_last()) * 10 + byte_val(s.last())
    }
}

/// The grammar of a `SIZE` reply: the ASCII literal `SIZE `, a decimal run,
/// one space, a decimal run, then CRLF and nothing more; both numbers must
/// fit in `u32`. Returns the canvas dimensions, or `None` where the bytes
/// do not match.
pub open spec fn spec_parse_size(s: Seq<u8>) -> Option<(u32, u32)> {
    // `SIZE ` is 0x53 0x49 0x5a 0x45 0x20
    if s.len() < 5 || s[0] != 0x53 || s[1] != 0x49 || s[2] != 0x5a || s[3] != 0x45 || s[4]
        != 0x20 {
        None
    } else {
        let r1 = s.skip(5);
        let n1 = digit_run_bytes(r1) as int;
        if n1 == 0 || n1 >= r1.len() || r1[n1] != 0x20 || dec_val_bytes(r1.take(n1)) > u32::MAX {
            None
        } else {
            let w = dec_val_bytes(r1.take(n1));
            let r2 = r1.skip(n1 + 1);
            let n2 = digit_run_bytes(r2) as int;
            // 0x0d 0x0a is CRLF
            if n2 == 0 || r2.len() != n2 + 2 || r2[n2] != 0x0d || r2[n2 + 1] != 0x0a
                || dec_val_bytes(r2.take(n2)) > u32::MAX {
                None
            } else {
                Some((w as u32, dec_val_bytes(r2.take(n2)) as u32))
            }
        }
    }
}

/// A digit run is exactly the distance to the first non-digit (or to the
/// end of the sequence, where all of it is digits).
proof fn lemma_digit_run_bytes_char(t: Seq<u8>, m: int)
    requires
        0 <= m <= t.len(),
        forall|i: int| 0 <= i < m ==> is_digit_byte(#[trigger] t[i]),
        m < t.len() ==> !is_digit_byte(t[m]),
    ensures
        digit_run_bytes(t) == m,
    decreases m,
{
    if m == 0 {
    } else {
        assert(t.drop_first().len() == t.len() - 1);
        assert(forall|i: int|
            0 <= i < m - 1 ==> is_digit_byte(#[trigger] t.drop_first()[i]) && t.drop_first()[i]
                == t[i + 1]);
        lemma_digit_run_bytes_char(t.drop_first(), m - 1);
    }
}

/// Appending one digit multiplies the value by ten and adds the digit.
proof fn lemma_dec_val_bytes_step(s: Seq<u8>, lo: int, j: int)
    requires
        0 <= lo <= j < s.len(),
    ensures
        dec_val_bytes(s.subrange(lo, j + 1)) == dec_val_bytes(s.subrange(lo, j)) * 10 + byte_val(
            s[j],
        ),
{
    let w = s.subrange(lo, j + 1);
    assert(w.len() > 0);
    assert(w.drop_last() =~= s.subrange(lo, j));
    assert(w.last() == s[j]);
}

/// Finds the end of the run of digit bytes that starts at `from`.
fn digit_run_end(s: &[u8], from: usize) -> (end: usize)
    requires
        from <= s@.len(),
    ensures
        from <= end <= s@.len(),
        end - from == digit_run_bytes(s@.skip(from as int)),
        forall|i: int| from <= i < end ==> is_digit_byte(#[trigger] s@[i]),
        end < s@.len() ==> !is_digit_byte(s@[end as int]),
{
    let len = s.len();
    let mut end = from;
    while end < len && 0x30 <= s[end] && s[end] <= 0x39
        invariant
            from <= end <= len,
            len == s@.len(),
            forall|i: int| from <= i < end ==> is_digit_byte(#[trigger] s@[i]),
        decreases len - end,
    {
        end = end + 1;
    }
    proof {
        let t = s@.skip(from as int);
        assert(forall|i: int|
            0 <= i < t.len() ==> #[trigger] t[i] == s@[i + from as int]);
        lemma_digit_run_bytes_char(t, end as int - from as int);
    }
    end
}

/// Evaluates the digit bytes `s[from..to]` as a decimal number, or reports
/// that the value does not fit in `u32`.
fn dec_value(s: &[u8], from: usize, to: usize) -> (v: Option<u32>)
    requires
        from <= to <= s@.len(),
        forall|i: int| from <= i < to ==> is_digit_byte(#[trigger] s@[i]),
    ensures
        v matches Some(x) ==> x as nat == dec_val_bytes(s@.subrange(from as int, to as int))
            && dec_val_bytes(s@.subrange(from as int, to as int)) <= u32::MAX,
        v is None ==> dec_val_bytes(s@.subrange(from as int, to as int)) > u32::MAX,
{
    let mut acc: u64 = 0;
    let mut over = false;
    let mut j = from;
    proof {
        assert(s@.subrange(from as int, from as int) =~= Seq::<u8>::empty());
    }
    while j < to
        invariant
            from <= j <= to,
            to <= s@.len(),
            forall|i: int| from <= i < to ==> is_digit_byte(#[trigger] s@[i]),
            !over ==> acc as nat == dec_val_bytes(s@.subrange(from as int, j as int)) && acc
                <= u32::MAX as u64,
            over ==> dec_val_bytes(s@.subrange(from as int, j as int)) > u32::MAX,
        decreases to - j,
    {
        let d = s[j] - 0x30;
        proof {
            lemma_dec_val_bytes_step(s@, from as int, j as int);
            if over {
                let prev = dec_val_bytes(s@.subrange(from as int, j as int));
                assert(prev * 10 >= prev) by (nonlinear_arith)
                    requires
                        prev >= 0,
                ;
            }
        }
        if !over {
            let next = acc * 10 + (d as u64);
            if next > u32::MAX as u64 {
                over = true;
            } else {
                acc = next;
            }
        }
        j = j + 1;
    }
    if over {
        None
    } else {
        Some(acc as u32)
    }
}

/// Parses the server's `SIZE` reply into `(width, height)`. Returns
/// `Ok(dimensions)` exactly where the bytes match [`spec_parse_size`]'s
/// grammar, and a `Protocol` error on every other input.
pub fn parse_size_reply(reply: &[u8]) -> (r: Result<(u32, u32), ClientError>)
    ensures
        r is Ok <==> spec_parse_size(reply@) is Some,
        r matches Ok(p) ==> spec_parse_size(reply@) == Some(p),
        r matches Err(e) ==> e is Protocol,
{
    let len = reply.len();
    if len < 5 || reply[0] != 0x53 || reply[1] != 0x49 || reply[2] != 0x5a || reply[3] != 0x45
        || reply[4] != 0x20 {
        return Err(ClientError::Protocol);
    }
    let ghost r1 = reply@.skip(5);
    let end1 = digit_run_end(reply, 5);
    proof {
        assert(r1 =~= reply@.skip(5));
        assert(forall|i: int| 0 <= i < r1.len() ==> #[trigger] r1[i] == reply@[i + 5]);
        assert(digit_run_bytes(r1) == end1 - 5);
    }
    if end1 == 5 || end1 >= len || reply[end1] != 0x20 {
        proof {
            if (end1 as int) - 5 < r1.len() {
                assert(r1[end1 as int - 5] == reply@[end1 as int]);
            }
        }
        return Err(ClientError::Protocol);
    }
    proof {
        assert(r1.take(end1 as int - 5) =~= reply@.subrange(5, end1 as int));
        assert(r1[end1 as int - 5] == reply@[end1 as int]);
    }
    let w = match dec_value(reply, 5, end1) {
        Some(w) => w,
        None => {
            return Err(ClientError::Protocol);
        },
    };
    let ghost r2 = r1.skip(end1 as int - 5 + 1);
    let start2 = end1 + 1;
    let end2 = digit_run_end(reply, start2);
    proof {
        assert(r2 =~= reply@.skip(start2 as int));
        assert(forall|i: int| 0 <= i < r2.len() ==> #[trigger] r2[i] == reply@[i + start2 as int]);
        assert(digit_run_bytes(r2) == end2 - start2);
    }
    if end2 == start2 || len - end2 != 2 || reply[end2] != 0x0d || reply[end2 + 1] != 0x0a {
        proof {
            if (end2 as int) - (start2 as int) < r2.len() {
                assert(r2[end2 as int - start2 as int] == reply@[end2 as int]);
            }
            if (end2 as int) - (start2 as int) + 1 < r2.len() {
                assert(r2[end2 as int - start2 as int + 1] == reply@[end2 as int + 1]);
            }
        }
        return Err(ClientError::Protocol);
    }
    proof {
        assert(r2.take(end2 as int - start2 as int) =~= reply@.subrange(
            start2 as int,
            end2 as int,
        ));
        assert(r2[end2 as int - start2 as int] == reply@[end2 as int]);
        assert(r2[end2 as int - start2 as int + 1] == reply@[end2 as int + 1]);
        assert(r2.len() == end2 as int - start2 as int + 2);
    }
    let h = match dec_value(reply, start2, end2) {
        Some(h) => h,
        None => {
            return Err(ClientError::Protocol);
        },
    };
    Ok((w, h))
}

} // verus!
