//! Block-reference expansion: occurrences of `((id))` in content are
//! replaced by the referenced block's content, recursively, with an explicit
//! visited set that stops self-references and cycles. Unresolvable
//! references stay as literal tokens.
//!
//! The resolution is specified exactly by [`spec_resolve_from`]; cycle
//! protection makes it terminate on every input, which the `decreases`
//! measures prove.

use vstd::prelude::*;
use vstd::set_lib::lemma_len_subset;
use crate::text::{chars_to_string, spec_is_digit, string_to_chars};

verus! {

/// The characters an embedded block identifier may hold.
pub open spec fn spec_is_ref_char(c: char) -> bool {
    ('a' as u32 <= c as u32 && c as u32 <= 'z' as u32) || ('A' as u32 <= c as u32 && c as u32
        <= 'Z' as u32) || spec_is_digit(c) || c == '-'
}

fn is_ref_char(c: char) -> (r: bool)
    ensures
        r == spec_is_ref_char(c),
{
    let u = c as u32;
    ('a' as u32 <= u && u <= 'z' as u32) || ('A' as u32 <= u && u <= 'Z' as u32) || ('0' as u32 <= u
        && u <= '9' as u32) || c == '-'
}

/// The first position at or after `j` holding a character that cannot be
/// part of an identifier (or the end of the text).
pub open spec fn ident_end(s: Seq<char>, j: int) -> int
    recommends
        0 <= j <= s.len(),
    decreases s.len() - j,
{
    if j >= s.len() {
        s.len() as int
    } else if spec_is_ref_char(s[j]) {
        ident_end(s, j + 1)
    } else {
        j
    }
}

pub proof fn lemma_ident_end(s: Seq<char>, j: int)
    requires
        0 <= j <= s.len(),
    ensures
        j <= ident_end(s, j) <= s.len(),
        forall|k: int| j <= k < ident_end(s, j) ==> spec_is_ref_char(#[trigger] s[k]),
        ident_end(s, j) < s.len() ==> !spec_is_ref_char(s[ident_end(s, j)]),
    decreases s.len() - j,
{
    if j < s.len() && spec_is_ref_char(s[j]) {
        lemma_ident_end(s, j + 1);
    }
}

proof fn lemma_ident_end_from(s: Seq<char>, j0: int, j: int)
    requires
        0 <= j0 <= j <= s.len(),
        forall|k: int| j0 <= k < j ==> spec_is_ref_char(#[trigger] s[k]),
        j == s.len() || !spec_is_ref_char(s[j]),
    ensures
        ident_end(s, j0) == j,
    decreases j - j0,
{
    if j0 < j {
        lemma_ident_end_from(s, j0 + 1, j);
    }
}

/// The `((id))` token starting exactly at position `i`, if any: the
/// identifier between the parentheses and the position just past the token.
pub open spec fn spec_match_at(s: Seq<char>, i: int) -> Option<(Seq<char>, int)>
    recommends
        0 <= i < s.len(),
{
    if i + 2 <= s.len() && s[i] == '(' && s[i + 1] == '(' {
        let e = ident_end(s, i + 2);
        if e > i + 2 && e + 2 <= s.len() && s[e] == ')' && s[e + 1] == ')' {
            Some((s.subrange(i + 2, e), e + 2))
        } else {
            None
        }
    } else {
        None
    }
}

pub fn match_at(s: &Vec<char>, i: usize) -> (r: Option<(String, usize)>)
    requires
        i < s@.len(),
    ensures
        match r {
            Some(p) => spec_match_at(s@, i as int) == Some((p.0@, p.1 as int)) && i + 5 <= p.1
                <= s@.len(),
            None => spec_match_at(s@, i as int) is None,
        },
{
    let n = s.len();
    if n - i < 2 {
        return None;
    }
    if !(s[i] == '(' && s[i + 1] == '(') {
        return None;
    }
    let mut j = i + 2;
    while j < n && is_ref_char(s[j])
        invariant
            i + 2 <= j <= n,
            n == s@.len(),
            forall|k: int| i + 2 <= k < j ==> spec_is_ref_char(#[trigger] s@[k]),
        decreases n - j,
    {
        j = j + 1;
    }
    proof {
        lemma_ident_end_from(s@, i as int + 2, j as int);
    }
    if j == i + 2 {
        return None;
    }
    if n - j < 2 {
        return None;
    }
    if !(s[j] == ')' && s[j + 1] == ')') {
        return None;
    }
    let mut idv: Vec<char> = Vec::new();
    let mut k = i + 2;
    while k < j
        invariant
            i + 2 <= k <= j <= s@.len(),
            idv@ =~= s@.subrange(i as int + 2, k as int),
        decreases j - k,
    {
        idv.push(s[k]);
        proof {
            assert(idv@ =~= s@.subrange(i as int + 2, k as int + 1));
        }
        k = k + 1;
    }
    let id = chars_to_string(&idv);
    Some((id, j + 2))
}

/// Whether some entry of the association list carries this key.
pub open spec fn assoc_has(m: Seq<(String, String)>, k: Seq<char>) -> bool {
    exists|i: int| 0 <= i < m.len() && (#[trigger] m[i]).0@ == k
}

/// The value under a key; the latest entry wins, matching map insertion.
pub open spec fn assoc_get(m: Seq<(String, String)>, k: Seq<char>) -> Seq<char>
    decreases m.len(),
{
    if m.len() == 0 {
        Seq::empty()
    } else if m.last().0@ == k {
        m.last().1@
    } else {
        assoc_get(m.drop_last(), k)
    }
}

/// The set of keys of an association list.
pub open spec fn keys_set(m: Seq<(String, String)>) -> Set<Seq<char>>
    decreases m.len(),
{
    if m.len() == 0 {
        Set::empty()
    } else {
        keys_set(m.drop_last()).insert(m.last().0@)
    }
}

pub proof fn lemma_keys_set(m: Seq<(String, String)>)
    ensures
        keys_set(m).finite(),
        forall|k: Seq<char>| #[trigger] keys_set(m).contains(k) <==> assoc_has(m, k),
    decreases m.len(),
{
    if m.len() > 0 {
        lemma_keys_set(m.drop_last());
        assert forall|k: Seq<char>| #[trigger] keys_set(m).contains(k) <==> assoc_has(m, k) by {
            if assoc_has(m, k) {
                let i = choose|i: int| 0 <= i < m.len() && (#[trigger] m[i]).0@ == k;
                if i < m.len() - 1 {
                    assert(m.drop_last()[i] == m[i]);
                    assert(assoc_has(m.drop_last(), k));
                }
            }
            if keys_set(m).contains(k) && m.last().0@ != k {
                let i = choose|i: int|
                    0 <= i < m.drop_last().len() && (#[trigger] m.drop_last()[i]).0@ == k;
                assert(m[i].0@ == k);
            }
            if m.last().0@ == k {
                assert(m[m.len() - 1].0@ == k);
            }
        }
    }
}

proof fn lemma_assoc_get_skip_tail(m: Seq<(String, String)>, k: Seq<char>, i: int)
    requires
        0 <= i <= m.len(),
        forall|j: int| i <= j < m.len() ==> (#[trigger] m[j]).0@ != k,
    ensures
        assoc_get(m, k) == assoc_get(m.take(i), k),
        assoc_has(m, k) <==> assoc_has(m.take(i), k),
    decreases m.len() - i,
{
    if i < m.len() {
        assert(m.last().0@ != k);
        assert(m.drop_last() =~= m.take(m.len() - 1));
        lemma_assoc_get_skip_tail(m.drop_last(), k, i);
        assert(m.drop_last().take(i) =~= m.take(i));
        if assoc_has(m, k) {
            let j = choose|j: int| 0 <= j < m.len() && (#[trigger] m[j]).0@ == k;
            assert(m.drop_last()[j] == m[j]);
            assert(assoc_has(m.drop_last(), k));
        }
        if assoc_has(m.drop_last(), k) {
            let j = choose|j: int|
                0 <= j < m.drop_last().len() && (#[trigger] m.drop_last()[j]).0@ == k;
            assert(m[j].0@ == k);
        }
    } else {
        assert(m.take(i) =~= m);
    }
}

pub fn string_eq(a: &String, b: &String) -> (r: bool)
    ensures
        r == (a@ == b@),
{
    *a == *b
}

/// Looks a key up in the association list; the latest entry wins.
pub fn assoc_lookup(m: &Vec<(String, String)>, k: &String) -> (r: Option<String>)
    ensures
        match r {
            Some(v) => assoc_has(m@, k@) && v@ == assoc_get(m@, k@),
            None => !assoc_has(m@, k@),
        },
{
    let mut i: usize = m.len();
    while i > 0
        invariant
            i <= m@.len(),
            forall|j: int| i <= j < m@.len() ==> (#[trigger] m@[j]).0@ != k@,
        decreases i,
    {
        let p = &m[i - 1];
        if string_eq(&p.0, k) {
            proof {
                lemma_assoc_get_skip_tail(m@, k@, i as int);
                assert(m@.take(i as int).last() == m@[i - 1]);
                assert(m@[i as int - 1].0@ == k@);
                assert(assoc_has(m@, k@));
            }
            return Some(p.1.clone());
        }
        i = i - 1;
    }
    proof {
        lemma_assoc_get_skip_tail(m@, k@, 0);
        assert(m@.take(0) =~= Seq::<(String, String)>::empty());
    }
    None
}

/// The set of strings a vector holds, by view.
pub open spec fn str_set(v: Seq<String>) -> Set<Seq<char>>
    decreases v.len(),
{
    if v.len() == 0 {
        Set::empty()
    } else {
        str_set(v.drop_last()).insert(v.last()@)
    }
}

pub proof fn lemma_str_set(v: Seq<String>)
    ensures
        str_set(v).finite(),
        forall|k: Seq<char>| #[trigger] str_set(v).contains(k) <==> exists|i: int|
            0 <= i < v.len() && (#[trigger] v[i])@ == k,
    decreases v.len(),
{
    if v.len() > 0 {
        lemma_str_set(v.drop_last());
        assert forall|k: Seq<char>| #[trigger] str_set(v).contains(k) <==> exists|i: int|
            0 <= i < v.len() && (#[trigger] v[i])@ == k by {
            if exists|i: int| 0 <= i < v.len() && (#[trigger] v[i])@ == k {
                let i = choose|i: int| 0 <= i < v.len() && (#[trigger] v[i])@ == k;
                if i < v.len() - 1 {
                    assert(v.drop_last()[i] == v[i]);
                }
            }
            if str_set(v).contains(k) && v.last()@ != k {
                let i = choose|i: int|
                    0 <= i < v.drop_last().len() && (#[trigger] v.drop_last()[i])@ == k;
                assert(v[i]@ == k);
            }
            if v.last()@ == k {
                assert(v[v.len() - 1]@ == k);
            }
        }
    }
}

pub proof fn lemma_str_set_push(v: Seq<String>, x: String)
    ensures
        str_set(v.push(x)) == str_set(v).insert(x@),
{
    assert(v.push(x).drop_last() =~= v);
    assert(v.push(x).last() == x);
}

#[verifier::loop_isolation(false)]
fn visited_contains(v: &Vec<String>, k: &String) -> (r: bool)
    ensures
        r == str_set(v@).contains(k@),
{
    proof {
        lemma_str_set(v@);
    }
    let mut j: usize = 0;
    while j < v.len()
        invariant
            j <= v@.len(),
            forall|i: int| 0 <= i < j ==> (#[trigger] v@[i])@ != k@,
        decreases v@.len() - j,
    {
        if string_eq(&v[j], k) {
            proof {
                assert((v@[j as int])@ == k@);
                assert(exists|i: int| 0 <= i < v@.len() && (#[trigger] v@[i])@ == k@);
                assert(str_set(v@).contains(k@));
            }
            return true;
        }
        j = j + 1;
    }
    false
}

/// The expansion of `s` from position `i` on, against the block map `m`,
/// with the identifiers in `visited` barred from expansion. A `((id))`
/// token expands to the resolution of the mapped content when `id` is
/// mapped and not visited; otherwise it stays literal. All other text is
/// kept verbatim.
pub open spec fn spec_resolve_from(
    s: Seq<char>,
    i: int,
    m: Seq<(String, String)>,
    visited: Set<Seq<char>>,
) -> Seq<char>
    recommends
        0 <= i <= s.len(),
    decreases keys_set(m).difference(visited).len(), s.len() - i,
    via spec_resolve_from_decreases
{
    if i < 0 || i >= s.len() {
        Seq::empty()
    } else {
        match spec_match_at(s, i) {
            None => seq![s[i]] + spec_resolve_from(s, i + 1, m, visited),
            Some((id, next)) => {
                if visited.contains(id) || !assoc_has(m, id) {
                    s.subrange(i, next) + spec_resolve_from(s, next, m, visited)
                } else {
                    spec_resolve_from(assoc_get(m, id), 0, m, visited.insert(id))
                        + spec_resolve_from(s, next, m, visited)
                }
            },
        }
    }
}

#[via_fn]
proof fn spec_resolve_from_decreases(
    s: Seq<char>,
    i: int,
    m: Seq<(String, String)>,
    visited: Set<Seq<char>>,
) {
    broadcast use vstd::set::group_set_axioms;

    lemma_keys_set(m);
    let free = keys_set(m).difference(visited);
    assert(free.subset_of(keys_set(m)));
    lemma_len_subset(free, keys_set(m));
    if 0 <= i < s.len() && i + 2 <= s.len() {
        lemma_ident_end(s, i + 2);
        match spec_match_at(s, i) {
            Some(p) => {
                let id = p.0;
                if !visited.contains(id) && assoc_has(m, id) {
                    assert(keys_set(m).contains(id));
                    assert(keys_set(m).difference(visited.insert(id)) =~= free.remove(id));
                    assert(free.remove(id).len() < free.len());
                }
            },
            None => {},
        }
    }
}

/// The resolver's whole contract: resolve `content` against `m`, starting
/// with `visited`, the current block (when given) barred as well.
pub open spec fn resolve_spec(
    content: Seq<char>,
    m: Seq<(String, String)>,
    visited: Set<Seq<char>>,
    current: Option<Seq<char>>,
) -> Seq<char> {
    match current {
        Some(c) => spec_resolve_from(content, 0, m, visited.insert(c)),
        None => spec_resolve_from(content, 0, m, visited),
    }
}

#[verifier::loop_isolation(false)]
fn resolve_chars(content: &Vec<char>, map: &Vec<(String, String)>, visited: &mut Vec<String>) -> (r:
    Vec<char>)
    ensures
        r@ == spec_resolve_from(content@, 0, map@, str_set(old(visited)@)),
        final(visited)@ == old(visited)@,
    decreases keys_set(map@).difference(str_set(old(visited)@)).len(),
{
    let ghost vis0 = visited@;
    let mut out: Vec<char> = Vec::new();
    let mut i: usize = 0;
    while i < content.len()
        invariant
            i <= content@.len(),
            visited@ == vis0,
            spec_resolve_from(content@, 0, map@, str_set(vis0)) == out@ + spec_resolve_from(
                content@,
                i as int,
                map@,
                str_set(vis0),
            ),
        decreases content@.len() - i,
    {
        let ghost out_pre = out@;
        let ghost rest_pre = spec_resolve_from(content@, i as int, map@, str_set(vis0));
        match match_at(content, i) {
            None => {
                out.push(content[i]);
                proof {
                    let rest_next = spec_resolve_from(content@, i + 1, map@, str_set(vis0));
                    assert(rest_pre == seq![content@[i as int]] + rest_next);
                    assert(out_pre + rest_pre =~= out@ + rest_next);
                }
                i = i + 1;
            },
            Some((id, next)) => {
                let in_visited = visited_contains(visited, &id);
                let referenced: Option<String> = if in_visited {
                    None
                } else {
                    assoc_lookup(map, &id)
                };
                match referenced {
                    Some(refc) => {
                        let sub = string_to_chars(refc.as_str());
                        proof {
                            broadcast use vstd::set::group_set_axioms;

                            lemma_keys_set(map@);
                            lemma_str_set_push(vis0, id);
                            let free = keys_set(map@).difference(str_set(vis0));
                            assert(free.subset_of(keys_set(map@)));
                            lemma_len_subset(free, keys_set(map@));
                            assert(keys_set(map@).contains(id@));
                            assert(keys_set(map@).difference(str_set(vis0).insert(id@))
                                =~= free.remove(id@));
                            assert(free.remove(id@).len() < free.len());
                        }
                        visited.push(id);
                        let mut exp = resolve_chars(&sub, map, visited);
                        visited.pop();
                        proof {
                            assert(visited@ =~= vis0);
                        }
                        out.append(&mut exp);
                        proof {
                            let ghost expansion = spec_resolve_from(
                                sub@,
                                0,
                                map@,
                                str_set(vis0).insert(id@),
                            );
                            let rest_next = spec_resolve_from(
                                content@,
                                next as int,
                                map@,
                                str_set(vis0),
                            );
                            assert(rest_pre == expansion + rest_next);
                            assert(out_pre + rest_pre =~= out@ + rest_next);
                        }
                        i = next;
                    },
                    None => {
                        let mut k = i;
                        while k < next
                            invariant
                                i <= k <= next <= content@.len(),
                                out@ =~= out_pre + content@.subrange(i as int, k as int),
                            decreases next - k,
                        {
                            out.push(content[k]);
                            proof {
                                assert(out@ =~= out_pre + content@.subrange(
                                    i as int,
                                    k as int + 1,
                                ));
                            }
                            k = k + 1;
                        }
                        proof {
                            let rest_next = spec_resolve_from(
                                content@,
                                next as int,
                                map@,
                                str_set(vis0),
                            );
                            assert(rest_pre == content@.subrange(i as int, next as int)
                                + rest_next);
                            assert(out_pre + rest_pre =~= out@ + rest_next);
                        }
                        i = next;
                    },
                }
            },
        }
    }
    proof {
        assert(spec_resolve_from(content@, i as int, map@, str_set(vis0)) =~= Seq::<
            char,
        >::empty());
        assert(out@ + Seq::<char>::empty() =~= out@);
    }
    out
}

/// Removes every occurrence of `k` from the vector.
fn remove_string(v: &mut Vec<String>, k: &String)
    ensures
        str_set(final(v)@) == str_set(old(v)@).remove(k@),
{
    let mut kept: Vec<String> = Vec::new();
    let mut j: usize = 0;
    while j < v.len()
        invariant
            j <= v@.len(),
            str_set(kept@) == str_set(v@.take(j as int)).remove(k@),
        decreases v@.len() - j,
    {
        let ghost kept_pre = kept@;
        let keep = !string_eq(&v[j], k);
        if keep {
            kept.push(v[j].clone());
        }
        proof {
            assert(v@.take(j as int + 1).drop_last() =~= v@.take(j as int));
            assert(v@.take(j as int + 1).last() == v@[j as int]);
            if keep {
                lemma_str_set_push(kept_pre, v@[j as int]);
                assert(str_set(v@.take(j as int + 1)).remove(k@) =~= str_set(
                    v@.take(j as int),
                ).remove(k@).insert(v@[j as int]@));
            } else {
                assert(str_set(v@.take(j as int + 1)).remove(k@) =~= str_set(
                    v@.take(j as int),
                ).remove(k@));
            }
        }
        j = j + 1;
    }
    proof {
        assert(v@.take(j as int) =~= v@);
    }
    *v = kept;
}

/// Resolve block references in `content` by replacing each `((block-id))`
/// with the referenced block's content, recursively and cycle-safe.
/// `visited` carries the identifiers barred from expansion; the current
/// block, when given, is barred too and is absent from `visited` on return.
pub fn resolve_block_references(
    content: &str,
    block_map: &Vec<(String, String)>,
    visited: &mut Vec<String>,
    current_block_id: Option<&str>,
) -> (r: String)
    ensures
        r@ == resolve_spec(
            content@,
            block_map@,
            str_set(old(visited)@),
            match current_block_id {
                Some(c) => Some(c@),
                None => None,
            },
        ),
        match current_block_id {
            Some(c) => str_set(final(visited)@) == str_set(old(visited)@).remove(c@),
            None => final(visited)@ == old(visited)@,
        },
{
    let cv = string_to_chars(content);
    match current_block_id {
        None => {
            let out = resolve_chars(&cv, block_map, visited);
            chars_to_string(&out)
        },
        Some(cur) => {
            let ghost vis0 = visited@;
            let cur_string = cur.to_owned();
            let had = visited_contains(visited, &cur_string);
            if !had {
                proof {
                    lemma_str_set_push(vis0, cur_string);
                }
                visited.push(cur_string);
                let out = resolve_chars(&cv, block_map, visited);
                visited.pop();
                proof {
                    broadcast use vstd::set::group_set_axioms;

                    assert(visited@ =~= vis0);
                    assert(str_set(vis0).remove(cur@) =~= str_set(vis0));
                }
                chars_to_string(&out)
            } else {
                proof {
                    broadcast use vstd::set::group_set_axioms;

                    assert(str_set(vis0).insert(cur@) =~= str_set(vis0));
                }
                let out = resolve_chars(&cv, block_map, visited);
                remove_string(visited, &cur_string);
                chars_to_string(&out)
            }
        },
    }
}

} // verus!
