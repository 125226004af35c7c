//! Named values, as state files and the worker's command line carry them.
use crate::text::chars;
use crate::text::facts;
use crate::text::laws;
use crate::text::search;
use crate::text::search::replaced;
use vstd::hash_map::StringHashMap;
use vstd::prelude::*;

verus! {

/// The texts of a map of strings.
pub open spec fn field_texts(map: Map<Seq<char>, String>) -> Map<Seq<char>, Seq<char>> {
    map.map_values(|s: String| s@)
}

/// The value of a field, if it is there.
pub open spec fn field(map: Map<Seq<char>, Seq<char>>, key: Seq<char>) -> Option<Seq<char>> {
    if map.contains_key(key) {
        Some(map[key])
    } else {
        None
    }
}

/// The message on a field that has to be there and is not.
pub open spec fn missing(key: Seq<char>) -> Seq<char> {
    "share state missing key '"@ + key + "'"@
}

/// A value with its backslashes doubled and its line feeds written as `\n`.
pub open spec fn escaped(value: Seq<char>) -> Seq<char> {
    search::replace(search::replace(value, "\\"@, "\\\\"@), "\n"@, "\\n"@)
}

/// A value with `\n` turned into a line feed and then doubled backslashes into single ones.
pub open spec fn unescaped(value: Seq<char>) -> Seq<char> {
    search::replace(search::replace(value, "\\n"@, "\n"@), "\\\\"@, "\\"@)
}

/// A copy of the value of a field, if it is there.
pub fn lookup(map: &StringHashMap<String>, key: &str) -> (r: Option<String>)
    ensures
        chars::opt_text(r) == field(field_texts(map@), key@),
{
    match map.get(key) {
        Some(value) => Some(value.clone()),
        None => None,
    }
}

/// A copy of the value of a field that has to be there.
pub fn required(map: &StringHashMap<String>, key: &str) -> (r: Result<String, String>)
    ensures
        match r {
            Ok(value) => field(field_texts(map@), key@) == Some(value@),
            Err(e) => field(field_texts(map@), key@) is None && e@ == missing(key@),
        },
{
    match lookup(map, key) {
        Some(value) => Ok(value),
        None => Err("share state missing key '".to_owned().concat(key).concat("'")),
    }
}

/// Sets a field.
pub fn set_field(map: &mut StringHashMap<String>, key: String, value: String)
    ensures
        field_texts(final(map)@) == field_texts(old(map)@).insert(key@, value@),
{
    let ghost before = map@;
    map.insert(key, value);
    assert(field_texts(map@) =~= field_texts(before).insert(key@, value@));
}

/// Escapes a value for a line of a state file.
pub fn escape_state(value: &str) -> (r: String)
    ensures
        r@ == escaped(value@),
{
    proof {
        reveal_strlit("\\");
        reveal_strlit("\n");
    }
    let doubled = replaced(value, "\\", "\\\\");
    replaced(doubled.as_str(), "\n", "\\n")
}

/// Turns an escaped value back.
pub fn unescape_state(value: &str) -> (r: String)
    ensures
        r@ == unescaped(value@),
{
    proof {
        reveal_strlit("\\\\");
        reveal_strlit("\\n");
    }
    let broken = replaced(value, "\\n", "\n");
    replaced(broken.as_str(), "\\\\", "\\")
}

/// Whether a backslash stands right before an `n`.
pub open spec fn has_backslash_n(s: Seq<char>) -> bool {
    exists|i: int| 0 <= i < s.len() - 1 && #[trigger] s[i] == '\\' && s[i + 1] == 'n'
}

/// Replacing goes from the left: an occurrence at the front is replaced, else the first
/// character stays.
pub proof fn lemma_replace_step(s: Seq<char>, from: Seq<char>, to: Seq<char>)
    requires
        from.len() > 0,
    ensures
        search::replace(s, from, to) == if s.len() == 0 {
            seq![]
        } else if search::begins(s, from) {
            to + search::replace(s.skip(from.len() as int), from, to)
        } else {
            seq![s[0]] + search::replace(s.skip(1), from, to)
        },
{
    if s.len() == 0 {
        assert(search::replace(s, from, to) =~= seq![]);
    } else if search::begins(s, from) {
        assert(s.take(0) + to =~= to);
    } else {
        let t = s.skip(1);
        search::lemma_find(t, from);
        search::lemma_find(s, from);
        match search::find(t, from) {
            Some(i) => {
                assert(s.take(i + 1) =~= seq![s[0]] + t.take(i));
                assert(s.skip(i + 1 + from.len()) =~= t.skip(i + from.len()));
                assert(search::replace(s, from, to) =~= seq![s[0]] + search::replace(t, from, to));
            },
            None => {
                assert(s =~= seq![s[0]] + t);
            },
        }
    }
}

/// Escaping works character by character.
proof fn lemma_escaped_step(v: Seq<char>)
    requires
        v.len() > 0,
    ensures
        escaped(v) == (if v[0] == '\\' {
            seq!['\\', '\\']
        } else if v[0] == '\n' {
            seq!['\\', 'n']
        } else {
            seq![v[0]]
        }) + escaped(v.skip(1)),
        search::replace(v, "\\"@, "\\\\"@) == (if v[0] == '\\' {
            seq!['\\', '\\']
        } else {
            seq![v[0]]
        }) + search::replace(v.skip(1), "\\"@, "\\\\"@),
{
    reveal_strlit("\\");
    reveal_strlit("\\\\");
    reveal_strlit("\n");
    reveal_strlit("\\n");
    let bs = "\\"@;
    let nl = "\n"@;
    let double = "\\\\"@;
    let bn = "\\n"@;
    assert(bs =~= seq!['\\']);
    assert(nl =~= seq!['\n']);
    assert(double =~= seq!['\\', '\\']);
    assert(bn =~= seq!['\\', 'n']);
    lemma_replace_step(v, bs, double);
    assert(v.take(1) =~= seq![v[0]]);
    assert(search::begins(v, bs) == (v[0] == '\\')) by {
        if v[0] != '\\' {
            assert(v.take(1)[0] != bs[0]);
        }
    }
    let a = search::replace(v.skip(1), bs, double);
    let whole = search::replace(v, bs, double);
    if v[0] == '\\' {
        assert(whole == seq!['\\', '\\'] + a);
        assert(!search::begins(whole, nl)) by {
            assert(whole.take(1)[0] == '\\');
        }
        lemma_replace_step(whole, nl, bn);
        let w = whole.skip(1);
        assert(w =~= seq!['\\'] + a);
        assert(!search::begins(w, nl)) by {
            assert(w.take(1)[0] == '\\');
        }
        lemma_replace_step(w, nl, bn);
        assert(w.skip(1) =~= a);
        assert(escaped(v) =~= seq!['\\', '\\'] + escaped(v.skip(1)));
    } else {
        assert(whole == seq![v[0]] + a);
        lemma_replace_step(whole, nl, bn);
        assert(whole.skip(1) =~= a);
        assert(whole.take(1) =~= seq![v[0]]);
        assert(search::begins(whole, nl) == (v[0] == '\n')) by {
            if v[0] != '\n' {
                assert(whole.take(1)[0] != nl[0]);
            }
        }
    }
}

/// What escaping begins with tells what the value begins with.
proof fn lemma_escaped_n(v: Seq<char>)
    ensures
        escaped(v).len() > 0 && escaped(v)[0] == 'n' ==> v.len() > 0 && v[0] == 'n',
{
    if v.len() > 0 {
        lemma_escaped_step(v);
    } else {
        reveal_strlit("\\");
        reveal_strlit("\n");
        lemma_replace_step(v, "\\"@, "\\\\"@);
        lemma_replace_step(search::replace(v, "\\"@, "\\\\"@), "\n"@, "\\n"@);
    }
}

/// Turning back the line feeds of an escaped value leaves it with doubled backslashes.
proof fn lemma_line_feeds_come_back(v: Seq<char>)
    requires
        !has_backslash_n(v),
    ensures
        search::replace(escaped(v), "\\n"@, "\n"@) == search::replace(v, "\\"@, "\\\\"@),
    decreases v.len(),
{
    reveal_strlit("\\");
    reveal_strlit("\\\\");
    reveal_strlit("\n");
    reveal_strlit("\\n");
    let bn = "\\n"@;
    let nl = "\n"@;
    assert(bn =~= seq!['\\', 'n']);
    assert(nl =~= seq!['\n']);
    if v.len() == 0 {
        lemma_replace_step(v, "\\"@, "\\\\"@);
        lemma_replace_step(search::replace(v, "\\"@, "\\\\"@), nl, bn);
        lemma_replace_step(escaped(v), bn, nl);
    } else {
        let t = v.skip(1);
        assert(!has_backslash_n(t)) by {
            if has_backslash_n(t) {
                let i = choose|i: int|
                    0 <= i < t.len() - 1 && #[trigger] t[i] == '\\' && t[i + 1] == 'n';
                assert(v[i + 1] == '\\' && v[i + 2] == 'n');
            }
        }
        lemma_line_feeds_come_back(t);
        lemma_escaped_step(v);
        let e = escaped(v);
        let rest = escaped(t);
        lemma_replace_step(e, bn, nl);
        if v[0] == '\\' {
            assert(e == seq!['\\', '\\'] + rest);
            assert(!search::begins(e, bn)) by {
                assert(e.take(2)[1] == '\\');
            }
            let w = e.skip(1);
            assert(w =~= seq!['\\'] + rest);
            lemma_escaped_n(t);
            assert(!search::begins(w, bn)) by {
                if search::begins(w, bn) {
                    assert(w.take(2)[1] == 'n');
                    assert(rest[0] == 'n');
                    assert(v[0] == '\\' && v[1] == 'n');
                }
            }
            lemma_replace_step(w, bn, nl);
            assert(w.skip(1) =~= rest);
            assert(search::replace(e, bn, nl) =~= seq!['\\', '\\'] + search::replace(rest, bn, nl));
        } else if v[0] == '\n' {
            assert(e == seq!['\\', 'n'] + rest);
            assert(e.take(2) =~= bn);
            assert(e.skip(2) =~= rest);
        } else {
            assert(e == seq![v[0]] + rest);
            assert(!search::begins(e, bn)) by {
                if search::begins(e, bn) {
                    assert(e.take(2)[0] == '\\');
                }
            }
            assert(e.skip(1) =~= rest);
        }
    }
}

/// Halving doubled backslashes gives the value back.
proof fn lemma_backslashes_come_back(v: Seq<char>)
    ensures
        search::replace(search::replace(v, "\\"@, "\\\\"@), "\\\\"@, "\\"@) == v,
    decreases v.len(),
{
    reveal_strlit("\\");
    reveal_strlit("\\\\");
    let bs = "\\"@;
    let double = "\\\\"@;
    assert(bs =~= seq!['\\']);
    assert(double =~= seq!['\\', '\\']);
    if v.len() == 0 {
        lemma_replace_step(v, bs, double);
        lemma_replace_step(search::replace(v, bs, double), double, bs);
        assert(v =~= seq![]);
    } else {
        let t = v.skip(1);
        lemma_backslashes_come_back(t);
        lemma_escaped_step(v);
        let a = search::replace(v, bs, double);
        let rest = search::replace(t, bs, double);
        lemma_replace_step(a, double, bs);
        if v[0] == '\\' {
            assert(a.take(2) =~= double);
            assert(a.skip(2) =~= rest);
        } else {
            assert(!search::begins(a, double)) by {
                if search::begins(a, double) {
                    assert(a.take(2)[0] == '\\');
                }
            }
            assert(a.skip(1) =~= rest);
        }
        assert(v =~= seq![v[0]] + t);
    }
}

/// A value that was escaped comes back, unless a backslash stands right before an `n` in it.
pub proof fn escaping_is_undone(v: Seq<char>)
    requires
        !has_backslash_n(v),
    ensures
        unescaped(escaped(v)) == v,
{
    lemma_line_feeds_come_back(v);
    lemma_backslashes_come_back(v);
}

/// An escaped value fits on a line: it has no line feed in it, and its last character is the
/// value's, or one that escaping put there.
pub proof fn escaped_fits_on_a_line(v: Seq<char>)
    ensures
        forall|i: int| 0 <= i < escaped(v).len() ==> #[trigger] escaped(v)[i] != '\n',
        escaped(v).len() > 0 && escaped(v).last() == '\r' ==> v.len() > 0 && v.last() == '\r',
        escaped(v).len() == 0 ==> v.len() == 0,
    decreases v.len(),
{
    if v.len() == 0 {
        reveal_strlit("\\");
        reveal_strlit("\n");
        lemma_replace_step(v, "\\"@, "\\\\"@);
        lemma_replace_step(search::replace(v, "\\"@, "\\\\"@), "\n"@, "\\n"@);
    } else {
        let t = v.skip(1);
        escaped_fits_on_a_line(t);
        lemma_escaped_step(v);
        let e = escaped(v);
        let rest = escaped(t);
        let n = (e.len() - rest.len()) as int;
        assert forall|i: int| 0 <= i < e.len() implies #[trigger] e[i] != '\n' by {
            if i >= n {
                assert(e[i] == rest[i - n]);
            }
        }
        if e.last() == '\r' {
            if rest.len() > 0 {
                assert(rest.last() == e.last());
                assert(t.last() == v.last());
            } else {
                assert(v.last() == v[0]);
            }
        }
    }
}

/// Escaping goes character by character: a backslash is doubled, a line feed becomes a backslash and
/// an `n`, and any other character stays.
pub proof fn escaping_goes_character_by_character(c: char, v: Seq<char>)
    ensures
        escaped(seq![c] + v) == (if c == '\\' {
            seq!['\\', '\\']
        } else if c == '\n' {
            seq!['\\', 'n']
        } else {
            seq![c]
        }) + escaped(v),
        escaped(seq![]) == Seq::<char>::empty(),
{
    let whole = seq![c] + v;
    assert(whole.skip(1) =~= v);
    lemma_escaped_step(whole);
    let none = Seq::<char>::empty();
    reveal_strlit("\\");
    reveal_strlit("\n");
    lemma_replace_step(none, "\\"@, "\\\\"@);
    lemma_replace_step(none, "\n"@, "\\n"@);
}

/// What has no backslash in it is read back as it stands.
pub proof fn plain_texts_stay(v: Seq<char>)
    requires
        laws::lacks(v, '\\'),
    ensures
        unescaped(v) == v,
{
    reveal_strlit("\\n");
    reveal_strlit("\\\\");
    facts::containing_is_occurring(v, "\\n"@);
    facts::containing_is_occurring(v, "\\\\"@);
    if facts::occurs(v, "\\n"@) {
        let i = choose|i: int|
            0 <= i && i + 2 <= v.len() && #[trigger] v.subrange(i, i + 2) == "\\n"@;
        assert(v.subrange(i, i + 2)[0] == v[i]);
    }
    if facts::occurs(v, "\\\\"@) {
        let i = choose|i: int|
            0 <= i && i + 2 <= v.len() && #[trigger] v.subrange(i, i + 2) == "\\\\"@;
        assert(v.subrange(i, i + 2)[0] == v[i]);
    }
}

} // verus!
