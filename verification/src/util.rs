use vstd::prelude::*;
use vstd::string::StrSliceExecFns;
use vstd::string::StringExecFns;

verus! {

/// The characters of `s` before position `i`, with every occurrence of `q`
/// doubled — the one way any identifier or literal ever reaches SQL text.
pub open spec fn escape_upto(s: Seq<char>, q: char, i: int) -> Seq<char>
    decreases i,
{
    if i <= 0 {
        Seq::empty()
    } else {
        escape_upto(s, q, i - 1) + (if s[i - 1] == q {
            seq![q, q]
        } else {
            seq![s[i - 1]]
        })
    }
}

/// `s` with every occurrence of `q` doubled.
pub open spec fn escape_seq(s: Seq<char>, q: char) -> Seq<char> {
    escape_upto(s, q, s.len() as int)
}

/// Escapes an identifier for interpolation between double quotes: every
/// `"` in the name is doubled, so the quoted identifier always closes where
/// the generator put its closing quote and never anywhere inside the name.
pub fn escape_ident(ident: &str) -> (r: String)
    ensures
        r@ == escape_seq(ident@, '"'),
{
    escape_char_doubling(ident, true)
}

/// Escapes a name for interpolation between single quotes (as a string
/// value): every `'` is doubled.
pub fn escape_ident_as_value(ident: &str) -> (r: String)
    ensures
        r@ == escape_seq(ident@, '\''),
{
    escape_char_doubling(ident, false)
}

/// Doubles `"` when `double_quote` is set, `'` otherwise.
fn escape_char_doubling(ident: &str, double_quote: bool) -> (r: String)
    ensures
        r@ == escape_seq(ident@, if double_quote {
            '"'
        } else {
            '\''
        }),
{
    let ghost q: char = if double_quote {
        '"'
    } else {
        '\''
    };
    let mut out = String::new();
    let n: usize = ident.unicode_len();
    let mut i: usize = 0;
    while i < n
        invariant
            i <= n,
            n == ident@.len(),
            q == (if double_quote {
                '"'
            } else {
                '\''
            }),
            out@ == escape_upto(ident@, q, i as int),
        decreases n - i,
    {
        let piece = ident.substring_char(i, i + 1);
        let hit = if double_quote {
            str_eq_char(piece, '"')
        } else {
            str_eq_char(piece, '\'')
        };
        if hit {
            if double_quote {
                out.append("\"\"");
                proof {
                    reveal_strlit("\"\"");
                    assert(out@ =~= escape_upto(ident@, q, i + 1 as int));
                }
            } else {
                out.append("''");
                proof {
                    reveal_strlit("''");
                    assert(out@ =~= escape_upto(ident@, q, i + 1 as int));
                }
            }
        } else {
            out.append(piece);
            proof {
                assert(piece@ =~= seq![ident@[i as int]]);
                assert(out@ =~= escape_upto(ident@, q, i + 1 as int));
            }
        }
        i = i + 1;
    }
    out
}

/// Whether a one-character string is exactly `c`.
fn str_eq_char(piece: &str, c: char) -> (r: bool)
    requires
        piece@.len() == 1,
    ensures
        r == (piece@[0] == c),
{
    let got = piece.get_char(0);
    got == c
}

/// The base-table name behind an ordered-set virtual table's name: the
/// name with its reserved seven-character naming suffix removed.
pub fn base_name_from_virtual_name(virtual_name: &str) -> (r: &str)
    requires
        virtual_name@.len() >= 7,
    ensures
        r@ == virtual_name@.take(virtual_name@.len() - 7),
{
    let n = virtual_name.unicode_len();
    virtual_name.substring_char(0, n - 7)
}

/// `n` bind slots joined by commas, before slot `i`.
pub open spec fn binding_upto(i: int) -> Seq<char>
    decreases i,
{
    if i <= 0 {
        Seq::empty()
    } else if i == 1 {
        seq!['?']
    } else {
        binding_upto(i - 1) + seq![',', ' ', '?']
    }
}

/// A comma-separated list of `n` bind slots: `?, ?, ?`.
pub fn binding_list(n: usize) -> (r: String)
    ensures
        r@ == binding_upto(n as int),
{
    let mut out = String::new();
    let mut i: usize = 0;
    while i < n
        invariant
            i <= n,
            out@ == binding_upto(i as int),
        decreases n - i,
    {
        if i == 0 {
            out.append("?");
            proof {
                reveal_strlit("?");
                assert(out@ =~= binding_upto(1));
            }
        } else {
            out.append(", ?");
            proof {
                reveal_strlit(", ?");
                assert(out@ =~= binding_upto(i + 1 as int));
            }
        }
        i = i + 1;
    }
    out
}

/// One quoted identifier with an optional raw prefix: `prefix"escaped"`.
pub open spec fn quoted_ident(name: Seq<char>, prefix: Seq<char>) -> Seq<char> {
    prefix + seq!['"'] + escape_seq(name, '"') + seq!['"']
}

/// The first `i` names as a comma-separated list of prefixed, quoted
/// identifiers.
pub open spec fn ident_list_upto(names: Seq<Seq<char>>, prefix: Seq<char>, i: int) -> Seq<char>
    decreases i,
{
    if i <= 0 {
        Seq::empty()
    } else if i == 1 {
        quoted_ident(names[0], prefix)
    } else {
        ident_list_upto(names, prefix, i - 1) + seq![',', ' '] + quoted_ident(names[i - 1], prefix)
    }
}

/// A comma-separated list of quoted identifiers, each with the given raw
/// prefix (such as `NEW.` or `OLD.`): the shape of every column list the
/// generators interpolate into SQL.
pub fn as_identifier_list(names: &Vec<String>, prefix: &str) -> (r: String)
    ensures
        r@ == ident_list_upto(names.deep_view(), prefix@, names@.len() as int),
{
    let mut out = String::new();
    let n: usize = names.len();
    let mut i: usize = 0;
    while i < n
        invariant
            i <= n,
            n == names@.len(),
            out@ == ident_list_upto(names.deep_view(), prefix@, i as int),
        decreases n - i,
    {
        if i > 0 {
            out.append(", ");
        }
        out.append(prefix);
        out.append("\"");
        let escaped = escape_ident(names[i].as_str());
        out.append(escaped.as_str());
        out.append("\"");
        proof {
            reveal_strlit(", ");
            reveal_strlit("\"");
            assert(names.deep_view()[i as int] == names@[i as int]@);
            assert(out@ =~= ident_list_upto(names.deep_view(), prefix@, i + 1 as int));
        }
        i = i + 1;
    }
    out
}

/// The first `i` names as `"name" = ?` predicates joined by ` AND `.
pub open spec fn where_list_upto(names: Seq<Seq<char>>, i: int) -> Seq<char>
    decreases i,
{
    if i <= 0 {
        Seq::empty()
    } else if i == 1 {
        quoted_ident(names[0], Seq::empty()) + " = ?"@
    } else {
        where_list_upto(names, i - 1) + " AND "@ + quoted_ident(names[i - 1], Seq::empty())
            + " = ?"@
    }
}

/// A `WHERE` fragment matching every named column against a bind slot:
/// `"a" = ? AND "b" = ?`.
pub fn where_list(names: &Vec<String>) -> (r: String)
    ensures
        r@ == where_list_upto(names.deep_view(), names@.len() as int),
{
    let mut out = String::new();
    let n: usize = names.len();
    let mut i: usize = 0;
    while i < n
        invariant
            i <= n,
            n == names@.len(),
            out@ == where_list_upto(names.deep_view(), i as int),
        decreases n - i,
    {
        if i > 0 {
            out.append(" AND ");
        }
        out.append("\"");
        let escaped = escape_ident(names[i].as_str());
        out.append(escaped.as_str());
        out.append("\" = ?");
        proof {
            reveal_strlit(" AND ");
            reveal_strlit("\"");
            reveal_strlit("\" = ?");
            reveal_strlit(" = ?");
            assert(names.deep_view()[i as int] == names@[i as int]@);
            assert("\" = ?"@ =~= seq!['"'] + " = ?"@);
            assert(out@ =~= where_list_upto(names.deep_view(), i + 1 as int));
        }
        i = i + 1;
    }
    out
}

/// The first `i` names as `"name" = {prefix}"name"` predicates joined by
/// ` AND `.
pub open spec fn pk_where_list_upto(names: Seq<Seq<char>>, prefix: Seq<char>, i: int) -> Seq<char>
    decreases i,
{
    if i <= 0 {
        Seq::empty()
    } else if i == 1 {
        quoted_ident(names[0], Seq::empty()) + " = "@ + quoted_ident(names[0], prefix)
    } else {
        pk_where_list_upto(names, prefix, i - 1) + " AND "@ + quoted_ident(
            names[i - 1],
            Seq::empty(),
        ) + " = "@ + quoted_ident(names[i - 1], prefix)
    }
}

/// A `WHERE` fragment matching every named column against its prefixed
/// counterpart, as trigger bodies need: `"a" = OLD."a" AND "b" = OLD."b"`.
pub fn pk_where_list(names: &Vec<String>, prefix: &str) -> (r: String)
    ensures
        r@ == pk_where_list_upto(names.deep_view(), prefix@, names@.len() as int),
{
    let mut out = String::new();
    let n: usize = names.len();
    let mut i: usize = 0;
    while i < n
        invariant
            i <= n,
            n == names@.len(),
            out@ == pk_where_list_upto(names.deep_view(), prefix@, i as int),
        decreases n - i,
    {
        if i > 0 {
            out.append(" AND ");
        }
        out.append("\"");
        let escaped = escape_ident(names[i].as_str());
        out.append(escaped.as_str());
        out.append("\" = ");
        out.append(prefix);
        out.append("\"");
        let escaped2 = escape_ident(names[i].as_str());
        out.append(escaped2.as_str());
        out.append("\"");
        proof {
            reveal_strlit(" AND ");
            reveal_strlit("\"");
            reveal_strlit("\" = ");
            reveal_strlit(" = ");
            assert(names.deep_view()[i as int] == names@[i as int]@);
            assert("\" = "@ =~= seq!['"'] + " = "@);
            assert(out@ =~= pk_where_list_upto(names.deep_view(), prefix@, i + 1 as int));
        }
        i = i + 1;
    }
    out
}

} // verus!
