//! The evaluated configuration, as a plain value tree: text leaves, nested
//! tables, lists, and a marker for anything else. The external evaluator
//! reduces the configuration language to such a tree; this module turns the
//! tree into a [`Script`](crate::script::Script), validating its shape on
//! the way.

use vstd::prelude::*;
use vstd::string::StrSliceExecFns;
use vstd::string::StringExecFns;

use crate::strutil::str_eq;
use crate::strutil::str_lex_lt;
use crate::strutil::lex_lt;
use crate::strutil::lemma_lex_total;
use crate::strutil::lemma_lex_trans;
use crate::script::Script;
use crate::script::strict_sorted;

verus! {

/// One value of the evaluated configuration: what the script parsing reads.
/// Anything that is not text, a table, or a list is `Other`; the parser
/// rejects it wherever it matters.
pub enum ConfigValue {
    /// A text value.
    Text(String),
    /// A table: key/value pairs in key order.
    Table(Vec<(String, ConfigValue)>),
    /// A list of values.
    List(Vec<ConfigValue>),
    /// Any other kind of value (a number, a boolean, a date).
    Other,
}

/// The keys of a table, in stored order.
pub open spec fn table_keys(t: Seq<(String, ConfigValue)>) -> Seq<Seq<char>> {
    t.map_values(|e: (String, ConfigValue)| e.0@)
}

/// The first value bound to `key` in a table, if any.
pub open spec fn spec_lookup(t: Seq<(String, ConfigValue)>, key: Seq<char>) -> Option<ConfigValue>
    decreases t.len(),
{
    if t.len() == 0 {
        None
    } else if t[0].0@ == key {
        Some(t[0].1)
    } else {
        spec_lookup(t.drop_first(), key)
    }
}

/// Look a key up in a table.
pub fn table_get<'a>(t: &'a Vec<(String, ConfigValue)>, key: &str) -> (r: Option<
    &'a ConfigValue,
>)
    ensures
        match r {
            Some(v) => spec_lookup(t@, key@) == Some(*v),
            None => spec_lookup(t@, key@) is None,
        },
{
    let n = t.len();
    let mut i: usize = 0;
    proof {
        assert(t@.skip(0) =~= t@);
    }
    while i < n
        invariant
            n == t@.len(),
            i <= n,
            spec_lookup(t@, key@) == spec_lookup(t@.skip(i as int), key@),
        decreases n - i,
    {
        proof {
            assert(t@.skip(i as int)[0] == t@[i as int]);
            assert(t@.skip(i as int).drop_first() =~= t@.skip(i as int + 1));
        }
        if str_eq(t[i].0.as_str(), key) {
            return Some(&t[i].1);
        }
        i = i + 1;
    }
    None
}

/// Whitespace as the effector-command splitting understands it.
pub open spec fn is_ws(c: char) -> bool {
    c == ' ' || c == '\t' || c == '\n' || c == '\r'
}

/// The maximal run of non-whitespace characters at the head of `s`.
pub open spec fn take_word(s: Seq<char>) -> Seq<char>
    decreases s.len(),
{
    if s.len() == 0 || is_ws(s[0]) {
        Seq::empty()
    } else {
        seq![s[0]] + take_word(s.drop_first())
    }
}

/// A word is never longer than what it was taken from, and is non-empty
/// exactly when the head is a non-whitespace character.
pub proof fn lemma_take_word_len(s: Seq<char>)
    ensures
        take_word(s).len() <= s.len(),
        s.len() > 0 && !is_ws(s[0]) ==> take_word(s).len() >= 1,
    decreases s.len(),
{
    if s.len() > 0 && !is_ws(s[0]) {
        lemma_take_word_len(s.drop_first());
    }
}

/// The words of `s`, split on runs of whitespace; no word is empty.
pub open spec fn spec_split_ws(s: Seq<char>) -> Seq<Seq<char>>
    decreases s.len(),
    via spec_split_ws_dec
{
    if s.len() == 0 {
        Seq::empty()
    } else if is_ws(s[0]) {
        spec_split_ws(s.drop_first())
    } else {
        seq![take_word(s)] + spec_split_ws(s.skip(take_word(s).len() as int))
    }
}

#[via_fn]
proof fn spec_split_ws_dec(s: Seq<char>) {
    if s.len() > 0 && !is_ws(s[0]) {
        lemma_take_word_len(s);
    }
}

/// When the first `j` characters are not whitespace and the `j`-th is (or
/// the sequence ends there), the word at the head is exactly those `j`
/// characters.
pub proof fn lemma_take_word_upto(s: Seq<char>, j: int)
    requires
        0 <= j <= s.len(),
        forall|k: int| 0 <= k < j ==> !is_ws(#[trigger] s[k]),
        j == s.len() || is_ws(s[j]),
    ensures
        take_word(s) == s.subrange(0, j),
    decreases j,
{
    if j == 0 {
        assert(take_word(s) =~= s.subrange(0, 0));
    } else {
        lemma_take_word_upto(s.drop_first(), j - 1);
        assert(s.drop_first().subrange(0, j - 1) =~= s.subrange(1, j));
        assert(take_word(s) =~= s.subrange(0, j)) by {
            assert(take_word(s) == seq![s[0]] + s.subrange(1, j));
        }
    }
}

/// Split a command string on whitespace, exactly as [`spec_split_ws`]
/// describes: maximal non-whitespace runs, in order, no empty words.
pub fn split_whitespace_words(s: &str) -> (r: Vec<String>)
    ensures
        r.deep_view() == spec_split_ws(s@),
{
    let len = s.unicode_len();
    let mut out: Vec<String> = Vec::new();
    let mut i: usize = 0;
    proof {
        assert(s@.skip(0) =~= s@);
        assert(out.deep_view() + spec_split_ws(s@) =~= spec_split_ws(s@));
    }
    while i < len
        invariant
            len == s@.len(),
            i <= len,
            out.deep_view() + spec_split_ws(s@.skip(i as int)) == spec_split_ws(s@),
        decreases len - i,
    {
        let c = s.get_char(i);
        if c == ' ' || c == '\t' || c == '\n' || c == '\r' {
            proof {
                assert(is_ws(s@.skip(i as int)[0]));
                assert(s@.skip(i as int).drop_first() =~= s@.skip(i as int + 1));
            }
            i = i + 1;
        } else {
            let mut j: usize = i + 1;
            loop
                invariant
                    len == s@.len(),
                    i < j <= len,
                    forall|k: int| i <= k < j ==> !is_ws(#[trigger] s@[k]),
                ensures
                    i < j <= len,
                    forall|k: int| i <= k < j ==> !is_ws(#[trigger] s@[k]),
                    j == len || is_ws(s@[j as int]),
                decreases len - j,
            {
                if j >= len {
                    break;
                }
                let cj = s.get_char(j);
                if cj == ' ' || cj == '\t' || cj == '\n' || cj == '\r' {
                    break;
                }
                j = j + 1;
            }
            let word = s.substring_char(i, j);
            proof {
                let tail = s@.skip(i as int);
                assert(forall|k: int| 0 <= k < j - i ==> tail[k] == s@[k + i]);
                assert(forall|k: int| 0 <= k < j - i ==> !is_ws(#[trigger] tail[k]));
                if j < len {
                    assert(is_ws(tail[j - i]));
                }
                lemma_take_word_upto(tail, j - i);
                assert(tail.subrange(0, j - i) =~= s@.subrange(i as int, j as int));
                assert(take_word(tail) == word@);
                assert(!is_ws(tail[0]));
                assert(tail.skip(j - i) =~= s@.skip(j as int));
                assert(spec_split_ws(tail) == seq![word@] + spec_split_ws(s@.skip(j as int)));
            }
            let ghost old_out = out.deep_view();
            out.push(String::from_str(word));
            proof {
                assert(out.deep_view() =~= old_out.push(word@));
                assert(out.deep_view() + spec_split_ws(s@.skip(j as int)) =~= old_out + (seq![
                    word@,
                ] + spec_split_ws(s@.skip(j as int))));
            }
            i = j;
        }
    }
    proof {
        assert(s@.skip(len as int) =~= Seq::<char>::empty());
        assert(spec_split_ws(Seq::<char>::empty()) =~= Seq::<Seq<char>>::empty());
        assert(out.deep_view() =~= out.deep_view() + Seq::<Seq<char>>::empty());
    }
    out
}

/// Where the shadow directory stands: an absolute path is taken as it is,
/// anything else is joined under the configuration file's directory.
pub open spec fn spec_join_dir(base: Seq<char>, raw: Seq<char>) -> Seq<char> {
    if raw.len() > 0 && raw[0] == '/' {
        raw
    } else if base.len() == 0 {
        raw
    } else if base.last() == '/' {
        base + raw
    } else {
        base + seq!['/'] + raw
    }
}

/// Join the raw shadow-directory setting under the base directory, exactly
/// as [`spec_join_dir`] describes.
pub fn join_dir(base: &str, raw: &str) -> (r: String)
    ensures
        r@ == spec_join_dir(base@, raw@),
{
    let rawlen = raw.unicode_len();
    if rawlen > 0 && raw.get_char(0) == '/' {
        return String::from_str(raw);
    }
    let baselen = base.unicode_len();
    if baselen == 0 {
        return String::from_str(raw);
    }
    let mut r = String::from_str(base);
    if base.get_char(baselen - 1) == '/' {
        r.append(raw);
        r
    } else {
        r.append("/");
        r.append(raw);
        proof {
            reveal_strlit("/");
            assert(r@ =~= base@ + seq!['/'] + raw@);
        }
        r
    }
}

/// The keys of a path/content sequence, in stored order.
pub open spec fn path_keys(s: Seq<(String, String)>) -> Seq<Seq<char>> {
    s.map_values(|p: (String, String)| p.0@)
}

/// The mapping a path/content sequence stands for; a later entry for the
/// same key overrides an earlier one.
pub open spec fn assoc_map(s: Seq<(String, String)>) -> Map<Seq<char>, Seq<char>>
    decreases s.len(),
{
    if s.len() == 0 {
        Map::empty()
    } else {
        assoc_map(s.drop_last()).insert(s.last().0@, s.last().1@)
    }
}

/// The key at one position of a path/content sequence.
proof fn lemma_key_at(s: Seq<(String, String)>, i: int)
    requires
        0 <= i < s.len(),
    ensures
        path_keys(s)[i] == s[i].0@,
{
}

/// Two positions of a sorted path/content sequence carry ordered keys.
proof fn lemma_sorted_at(s: Seq<(String, String)>, i: int, j: int)
    requires
        strict_sorted(path_keys(s)),
        0 <= i < j < s.len(),
    ensures
        lex_lt(s[i].0@, s[j].0@),
{
    lemma_key_at(s, i);
    lemma_key_at(s, j);
    assert(lex_lt(path_keys(s)[i], path_keys(s)[j]));
}

/// Overwriting the entry at `pos` with a new value for the same key updates
/// the mapping at that key, provided no later entry binds the key again.
proof fn lemma_assoc_update(s: Seq<(String, String)>, pos: int, key: String, val: String)
    requires
        0 <= pos < s.len(),
        s[pos].0@ == key@,
        forall|j: int| pos < j < s.len() ==> (#[trigger] s[j]).0@ != key@,
    ensures
        assoc_map(s.update(pos, (key, val))) == assoc_map(s).insert(key@, val@),
    decreases s.len(),
{
    let u = s.update(pos, (key, val));
    if pos == s.len() - 1 {
        assert(u.drop_last() =~= s.drop_last());
        assert(u.last() == (key, val));
        assert(assoc_map(u) == assoc_map(s.drop_last()).insert(key@, val@));
        assert(assoc_map(s).insert(key@, val@) =~= assoc_map(s.drop_last()).insert(key@, val@));
    } else {
        assert(u.drop_last() =~= s.drop_last().update(pos, (key, val)));
        assert(u.last() == s.last());
        lemma_assoc_update(s.drop_last(), pos, key, val);
        assert(s.last().0@ != key@) by {
            assert(s[s.len() - 1].0@ != key@);
        }
        assert(assoc_map(u) == assoc_map(s.drop_last()).insert(key@, val@).insert(
            s.last().0@,
            s.last().1@,
        ));
        assert(assoc_map(s.drop_last()).insert(key@, val@).insert(s.last().0@, s.last().1@)
            =~= assoc_map(s.drop_last()).insert(s.last().0@, s.last().1@).insert(key@, val@));
    }
}

/// Inserting a fresh entry at `pos` adds its binding to the mapping,
/// provided no entry at or after `pos` binds the key.
proof fn lemma_assoc_insert(s: Seq<(String, String)>, pos: int, key: String, val: String)
    requires
        0 <= pos <= s.len(),
        forall|j: int| pos <= j < s.len() ==> (#[trigger] s[j]).0@ != key@,
    ensures
        assoc_map(s.insert(pos, (key, val))) == assoc_map(s).insert(key@, val@),
    decreases s.len(),
{
    let u = s.insert(pos, (key, val));
    if pos == s.len() {
        assert(u.drop_last() =~= s);
        assert(u.last() == (key, val));
    } else {
        assert(u.drop_last() =~= s.drop_last().insert(pos, (key, val)));
        assert(u.last() == s.last());
        lemma_assoc_insert(s.drop_last(), pos, key, val);
        assert(s.last().0@ != key@) by {
            assert(s[s.len() - 1].0@ != key@);
        }
        assert(assoc_map(u) == assoc_map(s.drop_last()).insert(key@, val@).insert(
            s.last().0@,
            s.last().1@,
        ));
        assert(assoc_map(s.drop_last()).insert(key@, val@).insert(s.last().0@, s.last().1@)
            =~= assoc_map(s.drop_last()).insert(s.last().0@, s.last().1@).insert(key@, val@));
    }
}

/// Insert one desired-state binding into a sorted path/content sequence,
/// keeping it sorted; an existing binding for the same key is replaced.
pub fn insert_path(out: &mut Vec<(String, String)>, key: String, val: String)
    requires
        strict_sorted(path_keys(old(out)@)),
    ensures
        strict_sorted(path_keys(final(out)@)),
        assoc_map(final(out)@) == assoc_map(old(out)@).insert(key@, val@),
{
    let n = out.len();
    let mut pos: usize = 0;
    while pos < n && str_lex_lt(out[pos].0.as_str(), key.as_str())
        invariant
            n == out@.len(),
            pos <= n,
            out@ == old(out)@,
            forall|j: int| 0 <= j < pos ==> lex_lt(#[trigger] path_keys(out@)[j], key@),
        decreases n - pos,
    {
        assert(path_keys(out@)[pos as int] == out@[pos as int].0@);
        pos = pos + 1;
    }
    proof {
        if pos < n {
            assert(!lex_lt(out@[pos as int].0@, key@));
        }
        assert forall|j: int| pos < j < out@.len() implies (#[trigger] out@[j]).0@ != key@ by {
            assert(lex_lt(out@[pos as int].0@, out@[j].0@)) by {
                assert(path_keys(out@)[pos as int] == out@[pos as int].0@);
                assert(path_keys(out@)[j] == out@[j].0@);
            }
            if out@[j].0@ == key@ {
                assert(lex_lt(out@[pos as int].0@, key@));
                assert(false);
            }
        }
    }
    if pos < n && str_eq(out[pos].0.as_str(), key.as_str()) {
        proof {
            lemma_assoc_update(out@, pos as int, key, val);
        }
        let ghost pre = out@;
        out.set(pos, (key, val));
        proof {
            assert forall|i: int, j: int|
                0 <= i < j < path_keys(out@).len() implies lex_lt(
                #[trigger] path_keys(out@)[i],
                #[trigger] path_keys(out@)[j],
            ) by {
                lemma_key_at(out@, i);
                lemma_key_at(out@, j);
                lemma_sorted_at(pre, i, j);
                lemma_key_at(pre, i);
                lemma_key_at(pre, j);
            }
        }
    } else {
        proof {
            if pos < n {
                lemma_lex_total(out@[pos as int].0@, key@);
                assert(lex_lt(key@, out@[pos as int].0@));
            }
            assert forall|j: int| pos <= j < out@.len() implies (#[trigger] out@[j]).0@ != key@ by {
                if j == pos {
                } else {
                    assert(out@[j].0@ != key@);
                }
            }
            lemma_assoc_insert(out@, pos as int, key, val);
        }
        let ghost pre = out@;
        out.insert(pos, (key, val));
        proof {
            assert forall|i: int, j: int|
                0 <= i < j < path_keys(out@).len() implies lex_lt(
                #[trigger] path_keys(out@)[i],
                #[trigger] path_keys(out@)[j],
            ) by {
                lemma_key_at(out@, i);
                lemma_key_at(out@, j);
                if i < pos && j < pos {
                    lemma_sorted_at(pre, i, j);
                    lemma_key_at(pre, i);
                    lemma_key_at(pre, j);
                } else if i < pos && j == pos {
                    lemma_key_at(pre, i);
                    assert(lex_lt(pre[i].0@, key@));
                } else if i < pos && j > pos {
                    lemma_sorted_at(pre, i, j - 1);
                    lemma_key_at(pre, i);
                } else if i == pos && j > pos {
                    if j - 1 == pos {
                        assert(lex_lt(key@, pre[pos as int].0@));
                    } else {
                        lemma_sorted_at(pre, pos as int, j - 1);
                        lemma_lex_trans(key@, pre[pos as int].0@, pre[j - 1].0@);
                    }
                } else {
                    assert(i > pos && j > pos);
                    lemma_sorted_at(pre, i - 1, j - 1);
                }
            }
        }
    }
}

/// The desired-state mapping a configuration subtree stands for, read from
/// entry `i` on: a text leaf binds `prefix` plus its key; a nested table
/// contributes its own subtree under `prefix + key + "/"`.
pub open spec fn tree_paths_from(
    prefix: Seq<char>,
    t: Vec<(String, ConfigValue)>,
    i: int,
) -> Map<Seq<char>, Seq<char>>
    decreases t, t@.len() - i,
{
    if i < 0 || i >= t@.len() {
        Map::empty()
    } else {
        let key = prefix + t@[i].0@;
        let head = match t@[i].1 {
            ConfigValue::Text(s) => Map::empty().insert(key, s@),
            ConfigValue::Table(t2) => tree_paths_from(key + seq!['/'], t2, 0),
            _ => Map::empty(),
        };
        head.union_prefer_right(tree_paths_from(prefix, t, i + 1))
    }
}

/// Whether the subtree read from entry `i` on holds, at slash-path `p`, a
/// value that the desired-state tree cannot hold (a list or another
/// non-text, non-table value).
pub open spec fn tree_bad_from(
    prefix: Seq<char>,
    t: Vec<(String, ConfigValue)>,
    i: int,
    p: Seq<char>,
) -> bool
    decreases t, t@.len() - i,
{
    if i < 0 || i >= t@.len() {
        false
    } else {
        let key = prefix + t@[i].0@;
        (match t@[i].1 {
            ConfigValue::Text(_) => false,
            ConfigValue::Table(t2) => tree_bad_from(key + seq!['/'], t2, 0, p),
            _ => p == key,
        }) || tree_bad_from(prefix, t, i + 1, p)
    }
}

/// A bad node found at or after entry `i` is found when reading from any
/// earlier entry as well.
proof fn lemma_tree_bad_mono(
    prefix: Seq<char>,
    t: Vec<(String, ConfigValue)>,
    j: int,
    i: int,
    p: Seq<char>,
)
    requires
        0 <= j <= i,
        tree_bad_from(prefix, t, i, p),
    ensures
        tree_bad_from(prefix, t, j, p),
    decreases i - j,
{
    if j < i {
        lemma_tree_bad_mono(prefix, t, j + 1, i, p);
    }
}

/// Flatten a configuration subtree into the sorted desired-state sequence:
/// every text leaf becomes one binding under its slash-path, and the first
/// value of another kind aborts with that value's slash-path.
pub fn flatten_tree(prefix: &str, t: &Vec<(String, ConfigValue)>, out: &mut Vec<(String, String)>) -> (r:
    Result<(), String>)
    requires
        strict_sorted(path_keys(old(out)@)),
    ensures
        match r {
            Ok(_) => {
                &&& strict_sorted(path_keys(final(out)@))
                &&& assoc_map(final(out)@) == assoc_map(old(out)@).union_prefer_right(
                    tree_paths_from(prefix@, *t, 0),
                )
            },
            Err(p) => tree_bad_from(prefix@, *t, 0, p@),
        },
    decreases *t,
{
    let n = t.len();
    let mut idx: usize = 0;
    proof {
        assert(assoc_map(out@).union_prefer_right(tree_paths_from(prefix@, *t, 0))
            =~= assoc_map(old(out)@).union_prefer_right(tree_paths_from(prefix@, *t, 0)));
    }
    while idx < n
        invariant
            n == t@.len(),
            idx <= n,
            strict_sorted(path_keys(out@)),
            assoc_map(out@).union_prefer_right(tree_paths_from(prefix@, *t, idx as int))
                == assoc_map(old(out)@).union_prefer_right(tree_paths_from(prefix@, *t, 0)),
        decreases n - idx,
    {
        let ghost head = match t@[idx as int].1 {
            ConfigValue::Text(s) => Map::<Seq<char>, Seq<char>>::empty().insert(
                prefix@ + t@[idx as int].0@,
                s@,
            ),
            ConfigValue::Table(t2) => tree_paths_from(prefix@ + t@[idx as int].0@ + seq!['/'], t2, 0),
            _ => Map::<Seq<char>, Seq<char>>::empty(),
        };
        let mut full = String::from_str(prefix);
        full.append(t[idx].0.as_str());
        match &t[idx].1 {
            ConfigValue::Text(s) => {
                let ghost pre = assoc_map(out@);
                insert_path(out, full, s.clone());
                proof {
                    assert(assoc_map(out@) == pre.insert(prefix@ + t@[idx as int].0@, t@[idx as int].1->Text_0@));
                    assert(pre.insert(prefix@ + t@[idx as int].0@, t@[idx as int].1->Text_0@)
                        .union_prefer_right(tree_paths_from(prefix@, *t, idx as int + 1))
                        =~= pre.union_prefer_right(
                        head.union_prefer_right(tree_paths_from(prefix@, *t, idx as int + 1)),
                    ));
                }
            },
            ConfigValue::Table(t2) => {
                let mut childpfx = full;
                childpfx.append("/");
                proof {
                    reveal_strlit("/");
                    assert(childpfx@ =~= prefix@ + t@[idx as int].0@ + seq!['/']);
                }
                let ghost pre = assoc_map(out@);
                let rec = flatten_tree(childpfx.as_str(), t2, out);
                match rec {
                    Ok(_) => {
                        proof {
                            assert(assoc_map(out@) == pre.union_prefer_right(head));
                            assert(pre.union_prefer_right(head).union_prefer_right(
                                tree_paths_from(prefix@, *t, idx as int + 1),
                            ) =~= pre.union_prefer_right(
                                head.union_prefer_right(
                                    tree_paths_from(prefix@, *t, idx as int + 1),
                                ),
                            ));
                        }
                    },
                    Err(p) => {
                        proof {
                            assert(tree_bad_from(prefix@, *t, idx as int, p@));
                            lemma_tree_bad_mono(prefix@, *t, 0, idx as int, p@);
                        }
                        return Err(p);
                    },
                }
            },
            ConfigValue::List(_) => {
                proof {
                    assert(tree_bad_from(prefix@, *t, idx as int, full@));
                    lemma_tree_bad_mono(prefix@, *t, 0, idx as int, full@);
                }
                return Err(full);
            },
            ConfigValue::Other => {
                proof {
                    assert(tree_bad_from(prefix@, *t, idx as int, full@));
                    lemma_tree_bad_mono(prefix@, *t, 0, idx as int, full@);
                }
                return Err(full);
            },
        }
        idx = idx + 1;
    }
    proof {
        assert(tree_paths_from(prefix@, *t, n as int) =~= Map::<Seq<char>, Seq<char>>::empty());
        assert(assoc_map(out@).union_prefer_right(Map::<Seq<char>, Seq<char>>::empty())
            =~= assoc_map(out@));
    }
    Ok(())
}


/// Why the evaluated configuration could not be read as a script.
#[derive(Debug)]
pub enum ScriptError {
    /// `shadow_dir` is present but not text.
    ExpectedShadowDirText,
    /// `ignores` is present but not a list.
    ExpectedIgnoresList,
    /// An entry of `ignores` (at the carried index) is not text.
    ExpectedIgnoreText(usize),
    /// The configuration has no `effectors` table.
    MissingEffectors,
    /// `effectors` is present but not a table.
    ExpectedEffectorsTable,
    /// The effector binding for the carried prefix is not text.
    ExpectedEffectorText(String),
    /// The configuration has no `tree` table.
    MissingTree,
    /// `tree` is present but not a table.
    ExpectedTreeTable,
    /// The tree holds, at the carried slash-path, a value that is neither
    /// text nor a table.
    UnexpectedValueInTree(String),
}

/// Whether the `shadow_dir` setting is malformed: present but not text.
pub open spec fn shadow_dir_bad(t: Seq<(String, ConfigValue)>) -> bool {
    match spec_lookup(t, "shadow_dir"@) {
        Some(v) => !(v is Text),
        None => false,
    }
}

/// The shadow directory the configuration asks for: the `shadow_dir` text
/// joined under the base directory, or the base directory itself (joined
/// with `.`) when the setting is absent.
pub open spec fn spec_shadow_dir(t: Seq<(String, ConfigValue)>, base: Seq<char>) -> Seq<char> {
    match spec_lookup(t, "shadow_dir"@) {
        Some(ConfigValue::Text(d)) => spec_join_dir(base, d@),
        _ => spec_join_dir(base, "."@),
    }
}

/// Whether the `ignores` setting is malformed: present but not a list.
pub open spec fn ignores_bad(t: Seq<(String, ConfigValue)>) -> bool {
    match spec_lookup(t, "ignores"@) {
        Some(v) => !(v is List),
        None => false,
    }
}

/// Whether every entry of the `ignores` list is text.
pub open spec fn ignores_items_ok(t: Seq<(String, ConfigValue)>) -> bool {
    match spec_lookup(t, "ignores"@) {
        Some(ConfigValue::List(l)) => forall|i: int|
            0 <= i < l@.len() ==> (#[trigger] l@[i]) is Text,
        _ => true,
    }
}

impl Script {
    /// Read a [`Script`] out of the evaluated configuration: `shadow_dir`
    /// (optional text, joined under `base_dir`), `ignores` (optional list
    /// of text), `effectors` (a table of whitespace-separated command
    /// strings), and `tree` (a nested table of desired file contents,
    /// flattened to slash-paths). Each malformed shape is reported by its
    /// own error, in the order the fields are read.
    #[verifier::loop_isolation(false)]
    pub fn parse_toml(toml: &Vec<(String, ConfigValue)>, base_dir: &str) -> (r: Result<
        Script,
        ScriptError,
    >)
        requires
            match spec_lookup(toml@, "effectors"@) {
                Some(ConfigValue::Table(et)) => strict_sorted(table_keys(et@)),
                _ => true,
            },
        ensures
            match r {
                Ok(s) => {
                    &&& !shadow_dir_bad(toml@)
                    &&& s.shadow_dir@ == spec_shadow_dir(toml@, base_dir@)
                    &&& match spec_lookup(toml@, "ignores"@) {
                        None => s.ignores@.len() == 0,
                        Some(ConfigValue::List(l)) => s.ignores@.len() == l@.len() && forall|
                            i: int,
                        |
                            0 <= i < l@.len() ==> ((#[trigger] l@[i]) matches ConfigValue::Text(
                                x,
                            ) && s.ignores@[i]@ == x@),
                        Some(_) => false,
                    }
                    &&& match spec_lookup(toml@, "effectors"@) {
                        Some(ConfigValue::Table(et)) => s.effectors@.len() == et@.len() && forall|
                            i: int,
                        |
                            0 <= i < et@.len() ==> ((#[trigger] et@[i]).1 matches ConfigValue::Text(
                                x,
                            ) && s.effectors@[i].0@ == et@[i].0@ && s.effectors@[i].1.deep_view()
                                == spec_split_ws(x@)),
                        _ => false,
                    }
                    &&& match spec_lookup(toml@, "tree"@) {
                        Some(ConfigValue::Table(tt)) => assoc_map(s.paths@) == tree_paths_from(
                            Seq::empty(),
                            tt,
                            0,
                        ),
                        _ => false,
                    }
                    &&& s.wf()
                },
                Err(ScriptError::ExpectedShadowDirText) => shadow_dir_bad(toml@),
                Err(ScriptError::ExpectedIgnoresList) => !shadow_dir_bad(toml@) && ignores_bad(
                    toml@,
                ),
                Err(ScriptError::ExpectedIgnoreText(i)) => {
                    &&& !shadow_dir_bad(toml@)
                    &&& match spec_lookup(toml@, "ignores"@) {
                        Some(ConfigValue::List(l)) => 0 <= i < l@.len() && !(l@[i as int] is Text)
                            && forall|j: int| 0 <= j < i ==> (#[trigger] l@[j]) is Text,
                        _ => false,
                    }
                },
                Err(ScriptError::MissingEffectors) => {
                    &&& !shadow_dir_bad(toml@)
                    &&& !ignores_bad(toml@)
                    &&& ignores_items_ok(toml@)
                    &&& spec_lookup(toml@, "effectors"@) is None
                },
                Err(ScriptError::ExpectedEffectorsTable) => {
                    &&& !shadow_dir_bad(toml@)
                    &&& !ignores_bad(toml@)
                    &&& ignores_items_ok(toml@)
                    &&& match spec_lookup(toml@, "effectors"@) {
                        Some(v) => !(v is Table),
                        None => false,
                    }
                },
                Err(ScriptError::MissingTree) => {
                    &&& !shadow_dir_bad(toml@)
                    &&& !ignores_bad(toml@)
                    &&& ignores_items_ok(toml@)
                    &&& match spec_lookup(toml@, "effectors"@) {
                        Some(v) => v is Table,
                        None => false,
                    }
                    &&& spec_lookup(toml@, "tree"@) is None
                },
                Err(ScriptError::ExpectedTreeTable) => {
                    &&& !shadow_dir_bad(toml@)
                    &&& !ignores_bad(toml@)
                    &&& ignores_items_ok(toml@)
                    &&& match spec_lookup(toml@, "tree"@) {
                        Some(v) => !(v is Table),
                        None => false,
                    }
                },
                Err(ScriptError::ExpectedEffectorText(k)) => {
                    match spec_lookup(toml@, "effectors"@) {
                        Some(ConfigValue::Table(et)) => exists|i: int|
                            0 <= i < et@.len() && !((#[trigger] et@[i]).1 is Text)
                                && k@ == et@[i].0@
                                && forall|j: int| 0 <= j < i ==> (#[trigger] et@[j]).1 is Text,
                        _ => false,
                    }
                },
                Err(ScriptError::UnexpectedValueInTree(p)) => {
                    match spec_lookup(toml@, "tree"@) {
                        Some(ConfigValue::Table(tt)) => tree_bad_from(Seq::empty(), tt, 0, p@),
                        _ => false,
                    }
                },
            },
    {
        // Extract `shadow_dir`.
        let got_shadow = table_get(toml, "shadow_dir");
        let shadow_dir: String;
        match got_shadow {
            None => {
                shadow_dir = join_dir(base_dir, ".");
            },
            Some(v) => {
                match v {
                    ConfigValue::Text(d) => {
                        shadow_dir = join_dir(base_dir, d.as_str());
                    },
                    _ => {
                        return Err(ScriptError::ExpectedShadowDirText);
                    },
                }
            },
        }
        assert(!shadow_dir_bad(toml@));
        assert(shadow_dir@ == spec_shadow_dir(toml@, base_dir@));
        // Extract `ignores`.
        let mut ignores: Vec<String> = Vec::new();
        match table_get(toml, "ignores") {
            None => {},
            Some(v) => match v {
                ConfigValue::List(l) => {
                    let m = l.len();
                    let mut i: usize = 0;
                    while i < m
                        invariant
                            m == l@.len(),
                            i <= m,
                            ignores@.len() == i,
                            forall|j: int|
                                0 <= j < i ==> ((#[trigger] l@[j]) matches ConfigValue::Text(x)
                                    && ignores@[j]@ == x@),
                        decreases m - i,
                    {
                        match &l[i] {
                            ConfigValue::Text(s) => {
                                ignores.push(s.clone());
                            },
                            _ => {
                                return Err(ScriptError::ExpectedIgnoreText(i));
                            },
                        }
                        i = i + 1;
                    }
                },
                _ => {
                    return Err(ScriptError::ExpectedIgnoresList);
                },
            },
        }
        // Extract the `effectors` table.
        let et: &Vec<(String, ConfigValue)> = match table_get(toml, "effectors") {
            None => {
                return Err(ScriptError::MissingEffectors);
            },
            Some(v) => match v {
                ConfigValue::Table(et) => et,
                _ => {
                    return Err(ScriptError::ExpectedEffectorsTable);
                },
            },
        };
        // Extract the `tree` table.
        let tt: &Vec<(String, ConfigValue)> = match table_get(toml, "tree") {
            None => {
                return Err(ScriptError::MissingTree);
            },
            Some(v) => match v {
                ConfigValue::Table(tt) => tt,
                _ => {
                    return Err(ScriptError::ExpectedTreeTable);
                },
            },
        };
        // Convert each effector binding to its command words.
        let mut effectors: Vec<(String, Vec<String>)> = Vec::new();
        let en = et.len();
        let mut i: usize = 0;
        while i < en
            invariant
                en == et@.len(),
                i <= en,
                effectors@.len() == i,
                forall|j: int|
                    0 <= j < i ==> ((#[trigger] et@[j]).1 matches ConfigValue::Text(x)
                        && effectors@[j].0@ == et@[j].0@ && effectors@[j].1.deep_view()
                        == spec_split_ws(x@)),
            decreases en - i,
        {
            match &et[i].1 {
                ConfigValue::Text(s) => {
                    let words = split_whitespace_words(s.as_str());
                    effectors.push((et[i].0.clone(), words));
                },
                _ => {
                    return Err(ScriptError::ExpectedEffectorText(et[i].0.clone()));
                },
            }
            i = i + 1;
        }
        // Flatten the desired-state tree.
        let mut paths: Vec<(String, String)> = Vec::new();
        proof {
            assert(path_keys(paths@) =~= Seq::<Seq<char>>::empty());
            reveal_strlit("");
        }
        match flatten_tree("", tt, &mut paths) {
            Ok(_) => {},
            Err(p) => {
                proof {
                    assert(""@ =~= Seq::<char>::empty());
                }
                return Err(ScriptError::UnexpectedValueInTree(p));
            },
        }
        proof {
            assert(""@ =~= Seq::<char>::empty());
            assert(assoc_map(paths@) =~= Map::<Seq<char>, Seq<char>>::empty().union_prefer_right(
                tree_paths_from(Seq::empty(), *tt, 0),
            ));
        }
        let s = Script { shadow_dir, ignores, effectors, paths };
        proof {
            assert(s.wf()) by {
                assert forall|a: int, b: int|
                    0 <= a < b < s.effector_keys().len() implies lex_lt(
                    #[trigger] s.effector_keys()[a],
                    #[trigger] s.effector_keys()[b],
                ) by {
                    assert(s.effector_keys()[a] == s.effectors@[a].0@);
                    assert(s.effector_keys()[b] == s.effectors@[b].0@);
                    assert(table_keys(et@)[a] == et@[a].0@);
                    assert(table_keys(et@)[b] == et@[b].0@);
                    assert(lex_lt(table_keys(et@)[a], table_keys(et@)[b]));
                }
                assert forall|a: int, b: int|
                    0 <= a < b < s.paths_keys().len() implies lex_lt(
                    #[trigger] s.paths_keys()[a],
                    #[trigger] s.paths_keys()[b],
                ) by {
                    assert(s.paths_keys()[a] == s.paths@[a].0@);
                    assert(s.paths_keys()[b] == s.paths@[b].0@);
                    assert(path_keys(s.paths@)[a] == s.paths@[a].0@);
                    assert(path_keys(s.paths@)[b] == s.paths@[b].0@);
                    assert(lex_lt(path_keys(s.paths@)[a], path_keys(s.paths@)[b]));
                }
            }
        }
        Ok(s)
    }
}

} // verus!
