use vstd::prelude::*;
use vstd::string::StrSliceExecFns;
use vstd::string::StringExecFns;

verus! {

/// ASCII code of `c`, with upper-case letters folded to lower case.
pub open spec fn lower_code(c: char) -> int {
    if 65 <= c as int <= 90 {
        c as int + 32
    } else {
        c as int
    }
}

/// ASCII whitespace, as the statement dialect accepts between words.
pub open spec fn is_ws(c: char) -> bool {
    c as int == 32 || c as int == 9 || c as int == 10 || c as int == 13 || c as int == 11 || (
    c as int) == 12
}

/// The keyword `kw` (given in lower case) occurs at position `i` of `s`,
/// compared case-insensitively.
pub open spec fn kw_at(s: Seq<char>, i: int, kw: Seq<char>) -> bool {
    &&& 0 <= i
    &&& i + kw.len() <= s.len()
    &&& forall|k: int| 0 <= k < kw.len() ==> lower_code(s[i + k]) == (#[trigger] kw[k]) as int
}

/// From position `kwend`, one or more whitespace characters followed by the
/// marker word, the whole match ending exactly at `j`.
pub open spec fn span_ws_marker(s: Seq<char>, kwend: int, j: int) -> bool {
    &&& kwend + 1 <= j - 3
    &&& j <= s.len()
    &&& forall|m: int| kwend <= m < j - 3 ==> is_ws(#[trigger] s[m])
    &&& kw_at(s, j - 3, "crr"@)
}

/// A replicated-relation statement marker: `CREATE` at the start of the
/// statement, or `ALTER` anywhere, followed by whitespace and the marker
/// word, the whole match ending at `j`.
pub open spec fn crr_span(s: Seq<char>, i: int, j: int) -> bool {
    (i == 0 && kw_at(s, 0, "create"@) && span_ws_marker(s, "create"@.len() as int, j)) || (kw_at(
        s,
        i,
        "alter"@,
    ) && span_ws_marker(s, i + "alter"@.len(), j))
}

/// Whether the statement carries the replicated-relation marker at all.
pub open spec fn is_crr_match(s: Seq<char>) -> bool {
    exists|i: int, j: int| crr_span(s, i, j)
}

/// Whitespace never case-folds to the marker's first letter.
proof fn lemma_ws_not_marker(c: char)
    requires
        is_ws(c),
    ensures
        lower_code(c) != 99,
{
}

/// The characters of `s`, one by one.
pub(crate) fn to_char_vec(s: &str) -> (r: Vec<char>)
    ensures
        r@ == s@,
{
    let mut out: Vec<char> = Vec::new();
    let n: usize = s.unicode_len();
    let mut i: usize = 0;
    while i < n
        invariant
            i <= n,
            n == s@.len(),
            out@.len() == i,
            forall|j: int| 0 <= j < i ==> out@[j] == s@[j],
        decreases n - i,
    {
        out.push(s.get_char(i));
        i = i + 1;
    }
    proof {
        assert(out@ =~= s@);
    }
    out
}

/// The code point of a character.
fn char_code(c: char) -> (r: u32)
    ensures
        r as int == c as int,
{
    c as u32
}

/// Exec case folding matching `lower_code`.
fn lower_code_exec(c: char) -> (r: u32)
    ensures
        r as int == lower_code(c),
{
    let code = c as u32;
    if code >= 65 && code <= 90 {
        code + 32
    } else {
        code
    }
}

/// Exec whitespace test matching `is_ws`.
fn is_ws_exec(c: char) -> (r: bool)
    ensures
        r == is_ws(c),
{
    let code = c as u32;
    code == 32 || code == 9 || code == 10 || code == 13 || code == 11 || code == 12
}

/// Greedy scan for whitespace followed by the marker word, from `kwend`:
/// returns the exact end of the only possible match, if there is one.
fn find_ws_marker(cs: &Vec<char>, kwend: usize) -> (r: Option<usize>)
    requires
        kwend <= cs@.len(),
    ensures
        match r {
            Some(end) => span_ws_marker(cs@, kwend as int, end as int) && end <= cs@.len(),
            None => forall|j: int| !span_ws_marker(cs@, kwend as int, j),
        },
{
    let n = cs.len();
    let mut m: usize = kwend;
    while m < n && is_ws_exec(cs[m])
        invariant
            kwend <= m <= n,
            n == cs@.len(),
            forall|k: int| kwend <= k < m ==> is_ws(#[trigger] cs@[k]),
        decreases n - m,
    {
        m = m + 1;
    }
    let hit = m > kwend && n - m >= 3 && lower_code_exec(cs[m]) == 99 && lower_code_exec(
        cs[m + 1],
    ) == 114 && lower_code_exec(cs[m + 2]) == 114;
    if hit {
        proof {
            reveal_strlit("crr");
            assert forall|k: int| 0 <= k < "crr"@.len() implies lower_code(cs@[m + k]) == (
            #[trigger] "crr"@[k]) as int by {
                assert("crr"@[0] == 'c' && "crr"@[1] == 'r' && "crr"@[2] == 'r');
            }
            assert(kw_at(cs@, m as int, "crr"@));
        }
        Some(m + 3)
    } else {
        proof {
            reveal_strlit("crr");
            assert forall|j: int| !span_ws_marker(cs@, kwend as int, j) by {
                if span_ws_marker(cs@, kwend as int, j) {
                    assert(kw_at(cs@, j - 3, "crr"@));
                    assert("crr"@[0] == 'c' && "crr"@[1] == 'r' && "crr"@[2] == 'r');
                    assert(lower_code(cs@[j - 3 + 0]) == ("crr"@[0]) as int);
                    assert(lower_code(cs@[j - 3]) == 'c' as int);
                    if j - 3 < m {
                        assert(is_ws(cs@[j - 3]));
                        lemma_ws_not_marker(cs@[j - 3]);
                    } else if j - 3 > m {
                        assert(m < j - 3);
                        assert(m < cs@.len());
                        assert(is_ws(cs@[m as int]));
                        assert(m < n && is_ws(cs@[m as int]));
                    } else {
                        assert(lower_code(cs@[j - 3 + 1]) == ("crr"@[1]) as int);
                        assert(lower_code(cs@[j - 3 + 2]) == ("crr"@[2]) as int);
                        assert(lower_code(cs@[m as int]) == 99);
                        assert(lower_code(cs@[m + 1]) == 114);
                        assert(lower_code(cs@[m + 2]) == 114);
                    }
                }
            }
        }
        None
    }
}

/// Case-insensitive match of the lower-case word `kw` at position `p`.
pub(crate) fn kw_match_at(cs: &Vec<char>, p: usize, kw: &Vec<char>) -> (r: bool)
    requires
        p <= cs@.len(),
    ensures
        r == kw_at(cs@, p as int, kw@),
{
    if cs.len() - p < kw.len() {
        return false;
    }
    let mut k: usize = 0;
    while k < kw.len()
        invariant
            k <= kw@.len(),
            p + kw@.len() <= cs@.len(),
            cs@.len() <= usize::MAX,
            forall|t: int| 0 <= t < k ==> lower_code(cs@[p + t]) == (#[trigger] kw@[t]) as int,
        decreases kw@.len() - k,
    {
        let a = lower_code_exec(cs[p + k]);
        let bc = kw[k];
        let b = char_code(bc);
        if a != b {
            return false;
        }
        proof {
            assert(lower_code(cs@[p + k]) == kw@[k as int] as int);
        }
        k = k + 1;
    }
    true
}

/// Finds the end position of the replicated-relation marker match, if any:
/// `CREATE …` is recognized only at the statement head, `ALTER …` anywhere,
/// scanning left to right.
fn find_crr_end(cs: &Vec<char>) -> (r: Option<usize>)
    ensures
        match r {
            Some(end) => ({
                &&& exists|i: int| crr_span(cs@, i, end as int)
                &&& 3 <= end <= cs@.len()
            }),
            None => !is_crr_match(cs@),
        },
{
    let create_kw = to_char_vec("create");
    let alter_kw = to_char_vec("alter");
    proof {
        reveal_strlit("create");
        reveal_strlit("alter");
    }
    let n = cs.len();
    let mut p: usize = 0;
    while p < n
        invariant
            p <= n,
            n == cs@.len(),
            create_kw@ == "create"@,
            alter_kw@ == "alter"@,
            forall|j: int| !(kw_at(cs@, 0, "create"@) && span_ws_marker(cs@, 6, j)) || p == 0,
            forall|q: int, j: int|
                0 <= q < p ==> !(kw_at(cs@, q, "alter"@) && #[trigger] span_ws_marker(
                    cs@,
                    q + 5,
                    j,
                )),
        decreases n - p,
    {
        proof {
            reveal_strlit("create");
            reveal_strlit("alter");
        }
        if p == 0 && kw_match_at(cs, 0, &create_kw) {
            match find_ws_marker(cs, 6) {
                Some(end) => {
                    proof {
                        assert(crr_span(cs@, 0, end as int));
                    }
                    return Some(end);
                },
                None => {},
            }
        }
        if kw_match_at(cs, p, &alter_kw) {
            match find_ws_marker(cs, p + 5) {
                Some(end) => {
                    proof {
                        assert(crr_span(cs@, p as int, end as int));
                    }
                    return Some(end);
                },
                None => {},
            }
        }
        p = p + 1;
    }
    proof {
        assert forall|i: int, j: int| !crr_span(cs@, i, j) by {
            if crr_span(cs@, i, j) {
                if i == 0 && kw_at(cs@, 0, "create"@) && span_ws_marker(cs@, 6, j) {
                    assert(false);
                } else {
                    assert(kw_at(cs@, i, "alter"@) && span_ws_marker(cs@, i + 5, j));
                    assert(0 <= i < n);
                }
            }
        }
    }
    None
}

/// Whether the statement text is a replicated-relation statement: `CREATE`
/// at its head, or `ALTER` anywhere, each followed by whitespace and the
/// marker word (all case-insensitive).
pub fn is_crr_stmt(query: &str) -> (r: bool)
    ensures
        r == is_crr_match(query@),
{
    let cs = to_char_vec(query);
    match find_crr_end(&cs) {
        Some(_) => {
            proof {
                assert(is_crr_match(cs@));
            }
            true
        },
        None => false,
    }
}

/// Rewrites a replicated-relation statement to plain SQL by cutting the
/// three marker characters out of the matched region (the surrounding
/// whitespace stays, exactly as the original statement had it). A statement
/// without the marker is rejected.
pub fn convert_crr_stmt_to_sql(query: &str) -> (r: Result<String, &'static str>)
    ensures
        match r {
            Ok(converted) => exists|i: int, j: int|
                #[trigger] crr_span(query@, i, j) && converted@ == query@.take(j - 3)
                    + query@.skip(j),
            Err(_) => !is_crr_match(query@),
        },
{
    let cs = to_char_vec(query);
    match find_crr_end(&cs) {
        Some(end) => {
            let n = query.unicode_len();
            let head = query.substring_char(0, end - 3);
            let tail = query.substring_char(end, n);
            let mut out = String::new();
            out.append(head);
            out.append(tail);
            proof {
                let i = choose|i: int| crr_span(cs@, i, end as int);
                assert(crr_span(query@, i, end as int));
                assert(out@ =~= query@.take(end - 3) + query@.skip(end as int));
            }
            Ok(out)
        },
        None => Err("CRR statement could not be converted to SQL"),
    }
}

} // verus!
