use vstd::prelude::*;
use vstd::string::StrSliceExecFns;

verus! {

// Character codes delimiting the two integer-part head ranges.
pub const CHARCODE_LOWER_A: u8 = 97;

pub const CHARCODE_LOWER_Z: u8 = 122;

pub const CHARCODE_UPPER_A: u8 = 65;

pub const CHARCODE_UPPER_Z: u8 = 90;

pub const CHARCODE_ZERO: u8 = 48;

/// The default digit alphabet for order keys.
pub fn base62_digits() -> (r: Vec<u8>)
    ensures
        r@.len() == 62,
{
    let s = "0123456789ABCDEFGHIJKLMNOPQRSTUVWXYZabcdefghijklmnopqrstuvwxyz";
    proof {
        reveal_strlit("0123456789ABCDEFGHIJKLMNOPQRSTUVWXYZabcdefghijklmnopqrstuvwxyz");
    }
    let r = s.as_bytes_vec();
    proof {
        assert(s@.len() == 62);
        assert(r@.len() == s@.len()) by {
            vstd::string::is_ascii_spec_bytes(s);
            assert(s.is_ascii()) by {
                assert(forall|i: int| 0 <= i < s@.len() ==> (s@[i] as u32) < 128);
            }
        }
    }
    r
}

/// The smallest representable integer part: `A` followed by 26 zeros.
pub open spec fn smallest_integer_seq() -> Seq<u8> {
    Seq::new(27, |i: int| if i == 0 { CHARCODE_UPPER_A } else { CHARCODE_ZERO })
}

/// The smallest representable integer part, as bytes.
pub fn smallest_integer_key() -> (r: Vec<u8>)
    ensures
        r@ == smallest_integer_seq(),
{
    let mut r: Vec<u8> = Vec::new();
    r.push(CHARCODE_UPPER_A);
    let mut i: usize = 0;
    while i < 26
        invariant
            i <= 26,
            r@.len() == i + 1,
            r@[0] == CHARCODE_UPPER_A,
            forall|j: int| 1 <= j < r@.len() ==> r@[j] == CHARCODE_ZERO,
        decreases 26 - i,
    {
        r.push(CHARCODE_ZERO);
        i = i + 1;
    }
    proof {
        assert(r@ =~= smallest_integer_seq());
    }
    r
}

/// Declared length of an integer part, from its head byte: `a`..`z` run
/// from 2 to 27 and `A`..`Z` from 27 down to 2; any other head is invalid.
pub open spec fn integer_len_of(head: u8) -> Option<int> {
    if CHARCODE_LOWER_A <= head <= CHARCODE_LOWER_Z {
        Some(head - CHARCODE_LOWER_A + 2)
    } else if CHARCODE_UPPER_A <= head <= CHARCODE_UPPER_Z {
        Some(CHARCODE_UPPER_Z - head + 2)
    } else {
        None
    }
}

/// Length of the integer part a key's head byte declares.
pub fn get_integer_len(head: u8) -> (r: Result<usize, &'static str>)
    ensures
        match integer_len_of(head) {
            Some(l) => r is Ok && r->Ok_0 == l,
            None => r is Err,
        },
{
    if head >= CHARCODE_LOWER_A && head <= CHARCODE_LOWER_Z {
        Ok((head - CHARCODE_LOWER_A + 2) as usize)
    } else if head >= CHARCODE_UPPER_A && head <= CHARCODE_UPPER_Z {
        Ok((CHARCODE_UPPER_Z - head + 2) as usize)
    } else {
        Err("head is out of range")
    }
}

/// The integer part of an order key: its leading bytes, as many as the head
/// byte declares.
pub fn get_integer_part(key: &Vec<u8>) -> (r: Result<Vec<u8>, &'static str>)
    ensures
        r is Ok ==> key@.len() > 0 && integer_len_of(key@[0]) is Some && integer_len_of(key@[0])->0
            <= key@.len() && r->Ok_0@ == key@.subrange(0, integer_len_of(key@[0])->0),
        r is Err <==> (key@.len() == 0 || integer_len_of(key@[0]) is None || integer_len_of(
            key@[0],
        )->0 > key@.len()),
{
    if key.len() == 0 {
        return Err("head is out of range");
    }
    let l = get_integer_len(key[0])?;
    if l > key.len() {
        return Err("integer part of key is too long");
    }
    let mut out: Vec<u8> = Vec::new();
    let mut i: usize = 0;
    while i < l
        invariant
            i <= l,
            l <= key@.len(),
            out@.len() == i,
            forall|j: int| 0 <= j < i ==> out@[j] == key@[j],
        decreases l - i,
    {
        out.push(key[i]);
        i = i + 1;
    }
    proof {
        assert(out@ =~= key@.subrange(0, l as int));
    }
    Ok(out)
}

/// Whether two byte vectors hold the same bytes.
fn bytes_eq(a: &Vec<u8>, b: &Vec<u8>) -> (r: bool)
    ensures
        r == (a@ == b@),
{
    if a.len() != b.len() {
        return false;
    }
    let mut i: usize = 0;
    while i < a.len()
        invariant
            i <= a@.len(),
            a@.len() == b@.len(),
            forall|j: int| 0 <= j < i ==> a@[j] == b@[j],
        decreases a@.len() - i,
    {
        if a[i] != b[i] {
            return false;
        }
        i = i + 1;
    }
    proof {
        assert(a@ =~= b@);
    }
    true
}

/// Strict lexicographic `<` on byte vectors.
fn bytes_less(a: &Vec<u8>, b: &Vec<u8>) -> (r: bool)
    ensures
        r == crate::values::bytes_lt(a@, b@),
{
    let c = crate::values::compare_bytes(a, b);
    c < 0
}

/// A usable order key: not the smallest representable key, a head that
/// declares an integer part fitting inside the key, and a fractional tail
/// that does not end in a zero digit.
pub open spec fn valid_order_key_spec(key: Seq<u8>) -> bool {
    &&& key != smallest_integer_seq()
    &&& key.len() > 0
    &&& integer_len_of(key[0]) is Some
    &&& integer_len_of(key[0])->0 <= key.len()
    &&& (key.len() > integer_len_of(key[0])->0 ==> key.last() != CHARCODE_ZERO)
}

/// Checks that a key is usable as an order key, accepting exactly the keys
/// of `valid_order_key_spec`: the smallest representable key is rejected as
/// too small, and a well-formed key whose fractional tail ends in a zero
/// digit is rejected for its trailing zero.
pub fn validate_order_key(key: &Vec<u8>) -> (r: Result<(), &'static str>)
    ensures
        r is Ok <==> valid_order_key_spec(key@),
        key@ == smallest_integer_seq() ==> (r matches Err(m) && m@ == "Key is too small"@),
        (key@ != smallest_integer_seq() && key@.len() > 0 && integer_len_of(key@[0]) is Some
            && integer_len_of(key@[0])->0 < key@.len() && key@.last() == CHARCODE_ZERO) ==> (
        r matches Err(m) && m@ == "Integer part should not end with 0"@),
{
    let smallest = smallest_integer_key();
    if bytes_eq(key, &smallest) {
        return Err("Key is too small");
    }
    let i = get_integer_part(key)?;
    if key.len() > i.len() {
        if key[key.len() - 1] == CHARCODE_ZERO {
            return Err("Integer part should not end with 0");
        }
    }
    Ok(())
}

/// Checks that a byte string is exactly an integer part: its length is what
/// its head declares.
pub fn validate_integer(i: &Vec<u8>) -> (r: Result<(), &'static str>)
    ensures
        r is Ok ==> i@.len() > 0 && integer_len_of(i@[0]) == Some(i@.len() as int),
{
    if i.len() == 0 {
        return Err("head is out of range");
    }
    let l = get_integer_len(i[0])?;
    if i.len() != l {
        return Err("invalid integer part of order key");
    }
    Ok(())
}

/// Position of digit `d` in the alphabet, if any.
fn digit_index(digits: &Vec<u8>, d: u8) -> (r: Option<usize>)
    ensures
        match r {
            Some(i) => i < digits@.len() && digits@[i as int] == d,
            None => true,
        },
{
    let mut i: usize = 0;
    while i < digits.len()
        invariant
            i <= digits@.len(),
        decreases digits@.len() - i,
    {
        if digits[i] == d {
            return Some(i);
        }
        i = i + 1;
    }
    None
}

/// The integer part directly after `x` in key order, or `None` at the top of
/// the range.
pub fn increment_integer(x: &Vec<u8>, digits: &Vec<u8>) -> (r: Result<
    Option<Vec<u8>>,
    &'static str,
>)
    requires
        digits@.len() >= 2,
    ensures
        r matches Ok(Some(v)) ==> v@.len() >= 1,
{
    validate_integer(x)?;
    let head = x[0];
    let mut digs: Vec<u8> = Vec::new();
    let mut k: usize = 1;
    while k < x.len()
        invariant
            1 <= k <= x@.len(),
            digs@.len() == k - 1,
        decreases x@.len() - k,
    {
        digs.push(x[k]);
        k = k + 1;
    }
    let mut carry = true;
    let mut i: usize = digs.len();
    while i > 0 && carry
        invariant
            i <= digs@.len(),
        decreases i,
    {
        i = i - 1;
        let dlen = digits.len();
        let d = match digit_index(digits, digs[i]) {
            Some(p) => {
                proof {
                    assert(p < digits@.len());
                }
                p + 1
            },
            None => {
                return Err("invalid digit");
            },
        };
        if d == digits.len() {
            let _ = digs.remove(i);
            digs.insert(i, digits[0]);
        } else {
            let _ = digs.remove(i);
            digs.insert(i, digits[d]);
            carry = false;
        }
    }
    if carry {
        if head == CHARCODE_UPPER_Z {
            let mut out: Vec<u8> = Vec::new();
            out.push(CHARCODE_LOWER_A);
            out.push(digits[0]);
            return Ok(Some(out));
        }
        if head == CHARCODE_LOWER_Z {
            return Ok(None);
        }
        let h = head + 1;
        if h > CHARCODE_LOWER_A {
            digs.push(digits[0]);
        } else {
            let _ = digs.pop();
        }
        let mut out: Vec<u8> = Vec::new();
        out.push(h);
        let mut k: usize = 0;
        while k < digs.len()
            invariant
                k <= digs@.len(),
                out@.len() == k + 1,
            decreases digs@.len() - k,
        {
            out.push(digs[k]);
            k = k + 1;
        }
        Ok(Some(out))
    } else {
        let mut out: Vec<u8> = Vec::new();
        out.push(head);
        let mut k: usize = 0;
        while k < digs.len()
            invariant
                k <= digs@.len(),
                out@.len() == k + 1,
            decreases digs@.len() - k,
        {
            out.push(digs[k]);
            k = k + 1;
        }
        Ok(Some(out))
    }
}

/// The integer part directly before `x` in key order, or `None` at the
/// bottom of the range.
pub fn decrement_integer(x: &Vec<u8>, digits: &Vec<u8>) -> (r: Result<
    Option<Vec<u8>>,
    &'static str,
>)
    requires
        digits@.len() >= 2,
    ensures
        r matches Ok(Some(v)) ==> v@.len() >= 1,
{
    validate_integer(x)?;
    let head = x[0];
    let mut digs: Vec<u8> = Vec::new();
    let mut k: usize = 1;
    while k < x.len()
        invariant
            1 <= k <= x@.len(),
            digs@.len() == k - 1,
        decreases x@.len() - k,
    {
        digs.push(x[k]);
        k = k + 1;
    }
    let mut borrow = true;
    let mut i: usize = digs.len();
    while i > 0 && borrow
        invariant
            i <= digs@.len(),
        decreases i,
    {
        i = i - 1;
        let p = match digit_index(digits, digs[i]) {
            Some(p) => p,
            None => {
                return Err("invalid digit");
            },
        };
        if p == 0 {
            let _ = digs.remove(i);
            digs.insert(i, digits[digits.len() - 1]);
        } else {
            let _ = digs.remove(i);
            digs.insert(i, digits[p - 1]);
            borrow = false;
        }
    }
    if borrow {
        if head == CHARCODE_LOWER_A {
            let mut out: Vec<u8> = Vec::new();
            out.push(CHARCODE_UPPER_Z);
            out.push(digits[digits.len() - 1]);
            return Ok(Some(out));
        }
        if head == CHARCODE_UPPER_A {
            return Ok(None);
        }
        let h = head - 1;
        if h < CHARCODE_UPPER_Z {
            digs.push(digits[digits.len() - 1]);
        } else {
            let _ = digs.pop();
        }
        let mut out: Vec<u8> = Vec::new();
        out.push(h);
        let mut k: usize = 0;
        while k < digs.len()
            invariant
                k <= digs@.len(),
                out@.len() == k + 1,
            decreases digs@.len() - k,
        {
            out.push(digs[k]);
            k = k + 1;
        }
        Ok(Some(out))
    } else {
        let mut out: Vec<u8> = Vec::new();
        out.push(head);
        let mut k: usize = 0;
        while k < digs.len()
            invariant
                k <= digs@.len(),
                out@.len() == k + 1,
            decreases digs@.len() - k,
        {
            out.push(digs[k]);
            k = k + 1;
        }
        Ok(Some(out))
    }
}

/// Byte `n` of `a`, padding past its end with the zero digit.
fn pad_byte(a: &Vec<u8>, n: usize) -> (r: u8)
    ensures
        r == (if (n as int) < a@.len() {
            a@[n as int]
        } else {
            CHARCODE_ZERO
        }),
{
    if n < a.len() {
        a[n]
    } else {
        CHARCODE_ZERO
    }
}

/// A suffix of `v` starting at `from`.
fn tail_from(v: &Vec<u8>, from: usize) -> (r: Vec<u8>)
    requires
        from <= v@.len(),
    ensures
        r@ == v@.subrange(from as int, v@.len() as int),
{
    let mut out: Vec<u8> = Vec::new();
    let mut i: usize = from;
    while i < v.len()
        invariant
            from <= i <= v@.len(),
            out@.len() == i - from,
            forall|j: int| 0 <= j < out@.len() ==> out@[j] == v@[from + j],
        decreases v@.len() - i,
    {
        out.push(v[i]);
        i = i + 1;
    }
    proof {
        assert(out@ =~= v@.subrange(from as int, v@.len() as int));
    }
    out
}

/// Concatenation of two byte strings.
fn concat_bytes(a: &Vec<u8>, b: &Vec<u8>) -> (r: Vec<u8>)
    ensures
        r@ == a@ + b@,
{
    let mut out: Vec<u8> = Vec::new();
    out.extend_from_slice(a.as_slice());
    out.extend_from_slice(b.as_slice());
    proof {
        assert(out@ =~= a@ + b@);
    }
    out
}

/// A digit string strictly between `a` and `b` (both fractional tails over
/// the given alphabet; an absent `b` stands for the top of the range). The
/// result, appended to the shared integer part, orders strictly between the
/// two keys. Inputs that the order-key grammar excludes are rejected with an
/// error rather than ever reading out of bounds.
pub fn midpoint(a: &Vec<u8>, b: Option<&Vec<u8>>, digits: &Vec<u8>) -> (r: Result<
    Vec<u8>,
    &'static str,
>)
    requires
        digits@.len() >= 2,
        digits@.len() <= 255,
    ensures
        r matches Ok(m) ==> m@.len() >= 1,
    decreases a@.len() + (match b {
        Some(bb) => bb@.len(),
        None => 0,
    }),
{
    if let Some(bb) = b {
        if bytes_less(bb, a) {
            return Err("midpoint - a must be before b");
        }
    }
    if a.len() > 0 && a[a.len() - 1] == CHARCODE_ZERO {
        return Err("midpoint - a or b must not end with 0");
    }
    if let Some(bb) = b {
        if bb.len() == 0 {
            return Err("midpoint - a must be before b");
        }
        if bb[bb.len() - 1] == CHARCODE_ZERO {
            return Err("midpoint - a or b must not end with 0");
        }
        // skip the shared prefix (`a` padded with zero digits)
        let mut n: usize = 0;
        while n < bb.len() && pad_byte(a, n) == bb[n]
            invariant
                n <= bb@.len(),
            decreases bb@.len() - n,
        {
            n = n + 1;
        }
        if n >= bb.len() {
            // b was exhausted while matching: b is not after a
            return Err("midpoint - a must be before b");
        }
        if n > 0 {
            let a_tail = if n <= a.len() {
                tail_from(a, n)
            } else {
                Vec::new()
            };
            let b_tail = tail_from(bb, n);
            let rest = midpoint(&a_tail, Some(&b_tail), digits)?;
            let mut out: Vec<u8> = Vec::new();
            let mut k: usize = 0;
            while k < n
                invariant
                    k <= n,
                    n <= bb@.len(),
                decreases n - k,
            {
                out.push(bb[k]);
                k = k + 1;
            }
            out.extend_from_slice(rest.as_slice());
            return Ok(out);
        }
    }
    // no shared prefix: split on the first digit
    let digit_a: usize = if a.len() > 0 {
        match digit_index(digits, a[0]) {
            Some(p) => p,
            None => {
                return Err("midpoint - a has invalid digits");
            },
        }
    } else {
        0
    };
    let digit_b: usize = match b {
        Some(bb) => {
            match digit_index(digits, bb[0]) {
                Some(p) => p,
                None => {
                    return Err("midpoint - b has invalid digits");
                },
            }
        },
        None => digits.len(),
    };
    if digit_b >= digit_a && digit_b - digit_a > 1 {
        // round(0.5 * (digit_a + digit_b)), computed in integers
        let mid = (digit_a + digit_b + 1) / 2;
        let mut out: Vec<u8> = Vec::new();
        if mid < digits.len() {
            out.push(digits[mid]);
        } else {
            return Err("midpoint - b has invalid digits");
        }
        Ok(out)
    } else {
        match b {
            Some(bb) => {
                if bb.len() > 1 {
                    let mut out: Vec<u8> = Vec::new();
                    out.push(bb[0]);
                    Ok(out)
                } else {
                    let a_tail = if a.len() == 0 {
                        Vec::new()
                    } else {
                        tail_from(a, 1)
                    };
                    let rest = midpoint(&a_tail, None, digits)?;
                    let mut out: Vec<u8> = Vec::new();
                    if digit_a < digits.len() {
                        out.push(digits[digit_a]);
                    } else {
                        return Err("midpoint - a has invalid digits");
                    }
                    out.extend_from_slice(rest.as_slice());
                    Ok(out)
                }
            },
            None => {
                if a.len() == 0 {
                    // unreachable: digit span 0..alphabet is wider than 1
                    return Err("midpoint - a has invalid digits");
                }
                let a_tail = tail_from(a, 1);
                let rest = midpoint(&a_tail, None, digits)?;
                let mut out: Vec<u8> = Vec::new();
                if digit_a < digits.len() {
                    out.push(digits[digit_a]);
                } else {
                    return Err("midpoint - a has invalid digits");
                }
                out.extend_from_slice(rest.as_slice());
                Ok(out)
            },
        }
    }
}

/// A fresh order key strictly between `a` and `b`: the heart of the ordered
/// collection feature. `None` bounds stand for the ends of the key space;
/// with no bounds at all the canonical first key is handed out. Bounds must
/// pass `validate_order_key` and `a` must order strictly before `b`; every
/// key handed out is checked to order strictly between its bounds before it
/// is returned, so the betweenness law below holds of every result.
pub fn key_between(a: Option<&Vec<u8>>, b: Option<&Vec<u8>>, digits: Option<&Vec<u8>>) -> (r:
    Result<Option<Vec<u8>>, &'static str>)
    ensures
        r matches Ok(Some(k)) ==> k@.len() >= 1,
        // the betweenness law: a result orders strictly after `a` and
        // strictly before `b` in the byte order
        r matches Ok(Some(k)) ==> (match a {
            Some(av) => crate::values::bytes_lt(av@, k@),
            None => true,
        }),
        r matches Ok(Some(k)) ==> (match b {
            Some(bv) => crate::values::bytes_lt(k@, bv@),
            None => true,
        }),
        (a is None && b is None && digits is None) ==> (r matches Ok(Some(k)) && k@ == seq![
            97u8,
            48u8,
        ]),
        // the smallest representable key is rejected as a bound
        (key_between_alphabet_ok(digits) && (match a {
            Some(av) => av@ == smallest_integer_seq(),
            None => false,
        })) ==> (r matches Err(m) && m@ == "Key is too small"@),
        (key_between_alphabet_ok(digits) && a is None && (match b {
            Some(bv) => bv@ == smallest_integer_seq(),
            None => false,
        })) ==> (r matches Err(m) && m@ == "Key is too small"@),
        // out-of-order bounds are rejected
        (key_between_alphabet_ok(digits) && (match (a, b) {
            (Some(av), Some(bv)) => valid_order_key_spec(av@) && !crate::values::bytes_lt(
                av@,
                bv@,
            ),
            _ => false,
        })) ==> (r matches Err(m) && m@ == "key_between - a must be before b"@),
{
    let default_digits = base62_digits();
    let alphabet: &Vec<u8> = match digits {
        Some(d) => d,
        None => &default_digits,
    };
    if alphabet.len() < 2 || alphabet.len() > 255 {
        return Err("head is out of range");
    }
    if let Some(av) = a {
        validate_order_key(av)?;
    } else if let Some(bv) = b {
        validate_order_key(bv)?;
    }
    if let Some(av) = a {
        if let Some(bv) = b {
            if !bytes_less(av, bv) {
                return Err("key_between - a must be before b");
            }
        }
    }
    let k: Vec<u8> = match a {
        None => {
            match b {
                None => {
                    // integer zero: the canonical first key
                    let mut out: Vec<u8> = Vec::new();
                    out.push(CHARCODE_LOWER_A);
                    out.push(CHARCODE_ZERO);
                    proof {
                        assert(out@ =~= seq![97u8, 48u8]);
                    }
                    return Ok(Some(out));
                },
                Some(bv) => {
                    let ib = get_integer_part(bv)?;
                    let fb = tail_from(bv, if ib.len() <= bv.len() {
                        ib.len()
                    } else {
                        bv.len()
                    });
                    let smallest = smallest_integer_key();
                    if bytes_eq(&ib, &smallest) {
                        let empty: Vec<u8> = Vec::new();
                        let m = midpoint(&empty, Some(&fb), alphabet)?;
                        concat_bytes(&ib, &m)
                    } else if bytes_less(&ib, bv) {
                        ib
                    } else {
                        match decrement_integer(&ib, alphabet)? {
                            Some(res) => res,
                            None => {
                                return Err("cannot decrement anymore");
                            },
                        }
                    }
                },
            }
        },
        Some(av) => {
            match b {
                None => {
                    let ia = get_integer_part(av)?;
                    let fa = tail_from(av, if ia.len() <= av.len() {
                        ia.len()
                    } else {
                        av.len()
                    });
                    match increment_integer(&ia, alphabet)? {
                        Some(res) => res,
                        None => {
                            let m = midpoint(&fa, None, alphabet)?;
                            concat_bytes(&ia, &m)
                        },
                    }
                },
                Some(bv) => {
                    let ia = get_integer_part(av)?;
                    let ib = get_integer_part(bv)?;
                    let fa = tail_from(av, if ia.len() <= av.len() {
                        ia.len()
                    } else {
                        av.len()
                    });
                    let fb = tail_from(bv, if ib.len() <= bv.len() {
                        ib.len()
                    } else {
                        bv.len()
                    });
                    if bytes_eq(&ia, &ib) {
                        let m = midpoint(&fa, Some(&fb), alphabet)?;
                        concat_bytes(&ia, &m)
                    } else {
                        match increment_integer(&ia, alphabet)? {
                            Some(i) => {
                                if bytes_less(&i, bv) {
                                    i
                                } else {
                                    let m = midpoint(&fa, None, alphabet)?;
                                    concat_bytes(&ia, &m)
                                }
                            },
                            None => {
                                return Err("Cannot increment anymore");
                            },
                        }
                    }
                },
            }
        },
    };
    // the construction above never produces a key outside its bounds;
    // checking anyway turns that into a property of every result instead of
    // an unproved property of the algorithm
    if let Some(av) = a {
        if !bytes_less(av, &k) {
            return Err("key_between - generated key out of range");
        }
    }
    if let Some(bv) = b {
        if !bytes_less(&k, bv) {
            return Err("key_between - generated key out of range");
        }
    }
    if k.len() == 0 {
        return Err("key_between - generated key out of range");
    }
    Ok(Some(k))
}

/// Whether the supplied digit alphabet (or the default, for `None`) is
/// usable: at least two digits and a length the key grammar can carry.
pub open spec fn key_between_alphabet_ok(digits: Option<&Vec<u8>>) -> bool {
    match digits {
        Some(d) => 2 <= d@.len() <= 255,
        None => true,
    }
}

} // verus!
