//! Character-level helpers: prefix matching, splitting on the `__` delimiter,
//! joining path components with `.`, and lowercasing.

use vstd::prelude::*;

verus! {

/// True when `name` begins with `prefix`, character for character.
pub open spec fn has_prefix(prefix: Seq<char>, name: Seq<char>) -> bool {
    prefix.len() <= name.len() && name.take(prefix.len() as int) == prefix
}

/// The characters that `str::to_lowercase` produces for the given characters.
pub uninterp spec fn lower_of(s: Seq<char>) -> Seq<char>;

/// Relies on `str::to_lowercase`: the lowercase equivalent of `s`, a function
/// of the characters of `s` alone; an empty string stays empty.
#[verifier::external_body]
pub(crate) fn lowercase(s: &str) -> (r: String)
    ensures
        r@ == lower_of(s@),
        s@.len() == 0 ==> r@ == Seq::<char>::empty(),
{
    s.to_lowercase()
}

/// True when the two-character delimiter `__` starts at position `j` of `t`.
pub open spec fn is_delim_at(t: Seq<char>, j: int) -> bool {
    &&& 0 <= j
    &&& j + 1 < t.len()
    &&& t[j] == '_'
    &&& t[j + 1] == '_'
}

/// The position of the leftmost `__` delimiter in `t`, or `t.len()` when
/// there is none.
pub open spec fn first_delim(t: Seq<char>) -> int
    decreases t.len(),
{
    if t.len() < 2 {
        t.len() as int
    } else if t[0] == '_' && t[1] == '_' {
        0
    } else {
        1 + first_delim(t.skip(1))
    }
}

pub proof fn lemma_first_delim(t: Seq<char>)
    ensures
        0 <= first_delim(t) <= t.len(),
        first_delim(t) < t.len() ==> is_delim_at(t, first_delim(t)),
        forall|j: int| 0 <= j < first_delim(t) ==> !is_delim_at(t, j),
    decreases t.len(),
{
    if t.len() < 2 {
    } else if t[0] == '_' && t[1] == '_' {
    } else {
        lemma_first_delim(t.skip(1));
        let fd = first_delim(t);
        assert(fd == 1 + first_delim(t.skip(1)));
        if fd < t.len() {
            assert(is_delim_at(t.skip(1), fd - 1));
            assert(t.skip(1)[fd - 1] == t[fd]);
            assert(t.skip(1)[fd] == t[fd + 1]);
        }
        assert forall|j: int| 0 <= j < fd implies !is_delim_at(t, j) by {
            if j == 0 {
                assert(!(t[0] == '_' && t[1] == '_'));
            } else {
                assert(!is_delim_at(t.skip(1), j - 1));
                assert(t.skip(1)[j - 1] == t[j]);
                if j + 1 < t.len() {
                    assert(t.skip(1)[j] == t[j + 1]);
                }
            }
        }
    }
}

/// The components of `t` split on the literal `__` delimiter, leftmost and
/// non-overlapping; always at least one component.
pub open spec fn split_dd(t: Seq<char>) -> Seq<Seq<char>>
    decreases t.len(),
    via split_dd_decreases
{
    let fd = first_delim(t);
    if fd == t.len() {
        seq![t]
    } else {
        seq![t.take(fd)] + split_dd(t.skip(fd + 2))
    }
}

#[via_fn]
proof fn split_dd_decreases(t: Seq<char>) {
    lemma_first_delim(t);
}

pub proof fn lemma_split_dd_len(t: Seq<char>)
    ensures
        split_dd(t).len() >= 1,
    decreases t.len(),
{
    lemma_first_delim(t);
    let fd = first_delim(t);
    if fd < t.len() {
        lemma_split_dd_len(t.skip(fd + 2));
    }
}

/// The components joined with a single `.` between neighbours.
pub open spec fn join_dot(parts: Seq<Seq<char>>) -> Seq<char>
    decreases parts.len(),
{
    if parts.len() == 0 {
        Seq::<char>::empty()
    } else if parts.len() == 1 {
        parts[0]
    } else {
        join_dot(parts.drop_last()) + seq!['.'] + parts.last()
    }
}

/// True when `name` begins with `prefix`; compares character by character.
pub fn check_prefix(prefix: &str, name: &str) -> (r: bool)
    ensures
        r == has_prefix(prefix@, name@),
{
    let plen = prefix.unicode_len();
    let nlen = name.unicode_len();
    if plen > nlen {
        return false;
    }
    let mut i: usize = 0;
    while i < plen
        invariant
            i <= plen,
            plen == prefix@.len(),
            nlen == name@.len(),
            plen <= nlen,
            forall|j: int| 0 <= j < i ==> name@[j] == prefix@[j],
        decreases plen - i,
    {
        if name.get_char(i) != prefix.get_char(i) {
            proof {
                assert(name@.take(plen as int)[i as int] == name@[i as int]);
            }
            return false;
        }
        i += 1;
    }
    proof {
        assert(name@.take(plen as int) =~= prefix@);
    }
    true
}

/// The components of `s` split on the literal `__` delimiter.
pub fn split_components(s: &str) -> (parts: Vec<String>)
    ensures
        parts.deep_view() == split_dd(s@),
        parts@.len() >= 1,
{
    let n = s.unicode_len();
    let mut parts: Vec<String> = Vec::new();
    let mut start: usize = 0;
    let mut i: usize = 0;
    proof {
        assert(s@.skip(0) =~= s@);
    }
    while i < n
        invariant
            start <= i <= n,
            n == s@.len(),
            split_dd(s@) == parts.deep_view() + split_dd(s@.skip(start as int)),
            forall|j: int| 0 <= j < i - start ==> !is_delim_at(s@.skip(start as int), j),
        decreases n - i,
    {
        if s.get_char(i) == '_' && i + 1 < n && s.get_char(i + 1) == '_' {
            let piece = s.substring_char(start, i);
            let ghost before = parts.deep_view();
            parts.push(piece.to_owned());
            proof {
                let t = s@.skip(start as int);
                let k = i - start;
                lemma_first_delim(t);
                assert(t[k as int] == s@[i as int]);
                assert(t[k as int + 1] == s@[i as int + 1]);
                assert(is_delim_at(t, k as int));
                assert(first_delim(t) == k) by {
                    if first_delim(t) < k {
                        assert(is_delim_at(t, first_delim(t)));
                    }
                    if first_delim(t) > k {
                        assert(!is_delim_at(t, k as int));
                    }
                }
                assert(split_dd(t) == seq![t.take(k as int)] + split_dd(t.skip(k as int + 2)));
                assert(t.take(k as int) =~= s@.subrange(start as int, i as int));
                assert(t.skip(k as int + 2) =~= s@.skip(i as int + 2));
                assert(parts.deep_view() =~= before.push(s@.subrange(start as int, i as int)));
                assert(split_dd(s@) =~= parts.deep_view() + split_dd(s@.skip(i as int + 2)));
            }
            start = i + 2;
            i = i + 2;
        } else {
            proof {
                let t = s@.skip(start as int);
                let k = i - start;
                assert(t[k as int] == s@[i as int]);
                if k + 1 < t.len() {
                    assert(t[k as int + 1] == s@[i as int + 1]);
                }
                assert(!is_delim_at(t, k as int));
            }
            i = i + 1;
        }
    }
    let piece = s.substring_char(start, n);
    let ghost before = parts.deep_view();
    parts.push(piece.to_owned());
    proof {
        let t = s@.skip(start as int);
        lemma_first_delim(t);
        assert(first_delim(t) == t.len());
        assert(split_dd(t) == seq![t]);
        assert(t =~= s@.subrange(start as int, n as int));
        assert(parts.deep_view() =~= before.push(t));
        assert(parts.deep_view() =~= split_dd(s@));
    }
    parts
}

/// Joins all components but the last with `.` between neighbours.
pub fn join_all_but_last(parts: &Vec<String>) -> (r: String)
    requires
        parts@.len() >= 2,
    ensures
        r@ == join_dot(parts.deep_view().drop_last()),
{
    let mut r: String = parts[0].clone();
    let mut i: usize = 1;
    proof {
        assert(parts.deep_view().take(1) =~= seq![parts.deep_view()[0]]);
    }
    while i < parts.len() - 1
        invariant
            1 <= i <= parts@.len() - 1,
            r@ == join_dot(parts.deep_view().take(i as int)),
        decreases parts@.len() - 1 - i,
    {
        r.append(".");
        r.append(parts[i].as_str());
        proof {
            reveal_strlit(".");
            let views = parts.deep_view();
            assert("."@ =~= seq!['.']);
            assert(views.take(i as int + 1).drop_last() =~= views.take(i as int));
            assert(views.take(i as int + 1).last() == views[i as int]);
        }
        i += 1;
    }
    proof {
        let views = parts.deep_view();
        assert(views.take(views.len() - 1) =~= views.drop_last());
    }
    r
}

} // verus!
