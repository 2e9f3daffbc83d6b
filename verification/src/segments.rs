//! Splitting a character sequence on a delimiter, dropping empty segments,
//! and joining with single delimiters: the collapsing step shared by the two
//! name sanitizers.

use vstd::prelude::*;

verus! {

/// All segments of `s` between occurrences of `d`, empties included:
/// one more segment than there are occurrences of `d`.
pub open spec fn split_on(s: Seq<char>, d: char) -> Seq<Seq<char>>
    decreases s.len(),
{
    if s.len() == 0 {
        seq![Seq::<char>::empty()]
    } else if s[0] == d {
        seq![Seq::<char>::empty()] + split_on(s.drop_first(), d)
    } else {
        let rest = split_on(s.drop_first(), d);
        seq![seq![s[0]] + rest[0]] + rest.drop_first()
    }
}

/// The segments joined with a single `d` between neighbours.
pub open spec fn join_with(parts: Seq<Seq<char>>, d: char) -> Seq<char>
    decreases parts.len(),
{
    if parts.len() == 0 {
        Seq::<char>::empty()
    } else if parts.len() == 1 {
        parts[0]
    } else {
        parts[0] + seq![d] + join_with(parts.drop_first(), d)
    }
}

/// Split on `d`, drop the empty segments, rejoin with single `d`s.
pub open spec fn collapsed(s: Seq<char>, d: char) -> Seq<char> {
    join_with(split_on(s, d).filter(|p: Seq<char>| p.len() > 0), d)
}

/// No leading, trailing or doubled delimiter.
pub open spec fn collapsed_shape(s: Seq<char>, d: char) -> bool {
    &&& s.len() > 0 ==> s[0] != d && s[s.len() - 1] != d
    &&& forall|i: int| 0 <= i < s.len() - 1 ==> !(#[trigger] s[i] == d && s[i + 1] == d)
}

pub proof fn lemma_split_len(s: Seq<char>, d: char)
    ensures
        split_on(s, d).len() >= 1,
    decreases s.len(),
{
    if s.len() == 0 {
    } else {
        lemma_split_len(s.drop_first(), d);
    }
}

/// Every character of every segment comes from `s` and is not the delimiter.
pub proof fn lemma_split_chars(s: Seq<char>, d: char)
    ensures
        forall|i: int, j: int|
            0 <= i < split_on(s, d).len() && 0 <= j < split_on(s, d)[i].len() ==> {
                &&& #[trigger] split_on(s, d)[i][j] != d
                &&& s.contains(split_on(s, d)[i][j])
            },
    decreases s.len(),
{
    if s.len() == 0 {
    } else if s[0] == d {
        lemma_split_chars(s.drop_first(), d);
        assert forall|i: int, j: int|
            0 <= i < split_on(s, d).len() && 0 <= j < split_on(s, d)[i].len() implies {
            &&& #[trigger] split_on(s, d)[i][j] != d
            &&& s.contains(split_on(s, d)[i][j])
        } by {
            if i > 0 {
                let c = split_on(s.drop_first(), d)[i - 1][j];
                assert(split_on(s, d)[i][j] == c);
                assert(s.drop_first().contains(c));
                let k = choose|k: int| 0 <= k < s.drop_first().len() && s.drop_first()[k] == c;
                assert(s[k + 1] == c);
            }
        }
    } else {
        lemma_split_chars(s.drop_first(), d);
        lemma_split_len(s.drop_first(), d);
        let rest = split_on(s.drop_first(), d);
        assert forall|i: int, j: int|
            0 <= i < split_on(s, d).len() && 0 <= j < split_on(s, d)[i].len() implies {
            &&& #[trigger] split_on(s, d)[i][j] != d
            &&& s.contains(split_on(s, d)[i][j])
        } by {
            if i == 0 {
                if j == 0 {
                    assert(split_on(s, d)[0][0] == s[0]);
                } else {
                    let c = rest[0][j - 1];
                    assert(split_on(s, d)[0][j] == c);
                    assert(s.drop_first().contains(c));
                    let k = choose|k: int|
                        0 <= k < s.drop_first().len() && s.drop_first()[k] == c;
                    assert(s[k + 1] == c);
                }
            } else {
                let c = rest[i][j];
                assert(split_on(s, d)[i][j] == c);
                assert(s.drop_first().contains(c));
                let k = choose|k: int| 0 <= k < s.drop_first().len() && s.drop_first()[k] == c;
                assert(s[k + 1] == c);
            }
        }
    }
}

/// Appending a non-delimiter character extends the last segment.
pub proof fn lemma_split_push_char(s: Seq<char>, d: char, c: char)
    requires
        c != d,
    ensures
        split_on(s.push(c), d) == split_on(s, d).drop_last().push(split_on(s, d).last().push(c)),
    decreases s.len(),
{
    lemma_split_len(s, d);
    if s.len() == 0 {
        assert(s.push(c).len() == 1);
        assert(s.push(c)[0] == c);
        assert(s.push(c).drop_first() =~= Seq::<char>::empty());
        assert(seq![c] + split_on(Seq::<char>::empty(), d)[0] =~= seq![c]);
        assert(split_on(s.push(c), d) =~~= seq![seq![c]]);
        assert(split_on(s, d).last().push(c) =~= seq![c]);
        assert(split_on(s, d).drop_last().push(split_on(s, d).last().push(c)) =~~= seq![seq![c]]);
    } else {
        lemma_split_push_char(s.drop_first(), d, c);
        lemma_split_len(s.drop_first(), d);
        assert(s.push(c)[0] == s[0]);
        assert(s.push(c).drop_first() =~= s.drop_first().push(c));
        let rest = split_on(s.drop_first(), d);
        let restp = split_on(s.drop_first().push(c), d);
        if s[0] == d {
            assert(split_on(s.push(c), d) =~= seq![Seq::<char>::empty()] + restp);
            if rest.len() == 1 {
                assert(split_on(s, d).drop_last().push(split_on(s, d).last().push(c)) =~= seq![
                    Seq::<char>::empty(),
                ] + restp);
            } else {
                assert(split_on(s, d).drop_last().push(split_on(s, d).last().push(c)) =~= seq![
                    Seq::<char>::empty(),
                ] + restp);
            }
        } else {
            if rest.len() == 1 {
                assert(restp =~= seq![rest[0].push(c)]);
                assert(split_on(s.push(c), d) =~= seq![seq![s[0]] + rest[0].push(c)]);
                assert(seq![s[0]] + rest[0].push(c) =~= (seq![s[0]] + rest[0]).push(c));
                assert(split_on(s, d) =~= seq![seq![s[0]] + rest[0]]);
                assert(split_on(s, d).drop_last().push(split_on(s, d).last().push(c))
                    =~= seq![(seq![s[0]] + rest[0]).push(c)]);
            } else {
                assert(restp[0] == rest[0]);
                assert(split_on(s.push(c), d) =~= seq![seq![s[0]] + restp[0]]
                    + restp.drop_first());
                assert(split_on(s, d).last() == rest.last());
                assert(split_on(s, d).drop_last() =~= seq![seq![s[0]] + rest[0]]
                    + rest.drop_first().drop_last());
                assert(restp.drop_first() =~= rest.drop_first().drop_last().push(
                    rest.last().push(c),
                ));
                assert(split_on(s, d).drop_last().push(split_on(s, d).last().push(c))
                    =~= seq![seq![s[0]] + rest[0]] + rest.drop_first().drop_last().push(
                    rest.last().push(c),
                ));
            }
        }
    }
}

/// Appending the delimiter starts a fresh empty segment.
pub proof fn lemma_split_push_delim(s: Seq<char>, d: char)
    ensures
        split_on(s.push(d), d) == split_on(s, d).push(Seq::<char>::empty()),
    decreases s.len(),
{
    lemma_split_len(s, d);
    if s.len() == 0 {
        assert(s.push(d).len() == 1);
        assert(s.push(d)[0] == d);
        assert(s.push(d).drop_first() =~= Seq::<char>::empty());
        assert(split_on(Seq::<char>::empty(), d) == seq![Seq::<char>::empty()]);
        assert(split_on(s.push(d), d) == seq![Seq::<char>::empty()] + split_on(
            Seq::<char>::empty(),
            d,
        ));
        assert(split_on(s.push(d), d) =~~= seq![Seq::<char>::empty(), Seq::<char>::empty()]);
        assert(split_on(s, d).push(Seq::<char>::empty()) =~~= seq![
            Seq::<char>::empty(),
            Seq::<char>::empty(),
        ]);
    } else {
        lemma_split_push_delim(s.drop_first(), d);
        lemma_split_len(s.drop_first(), d);
        assert(s.push(d)[0] == s[0]);
        assert(s.push(d).drop_first() =~= s.drop_first().push(d));
        let rest = split_on(s.drop_first(), d);
        let restp = split_on(s.drop_first().push(d), d);
        if s[0] == d {
            assert(split_on(s.push(d), d) =~= seq![Seq::<char>::empty()] + restp);
            assert(split_on(s, d).push(Seq::<char>::empty()) =~= seq![Seq::<char>::empty()]
                + rest.push(Seq::<char>::empty()));
        } else {
            assert(restp[0] == rest[0]);
            assert(split_on(s.push(d), d) =~= seq![seq![s[0]] + restp[0]] + restp.drop_first());
            assert(restp.drop_first() =~= rest.drop_first().push(Seq::<char>::empty()));
            assert(split_on(s, d).push(Seq::<char>::empty()) =~= seq![seq![s[0]] + rest[0]]
                + rest.drop_first().push(Seq::<char>::empty()));
        }
    }
}

/// Joining after appending one more segment.
pub proof fn lemma_join_push(parts: Seq<Seq<char>>, d: char, p: Seq<char>)
    ensures
        join_with(parts.push(p), d) == if parts.len() == 0 {
            p
        } else {
            join_with(parts, d) + seq![d] + p
        },
    decreases parts.len(),
{
    if parts.len() == 0 {
        assert(parts.push(p) =~= seq![p]);
        assert(join_with(parts.push(p), d) == p);
    } else if parts.len() == 1 {
        assert(parts.push(p).len() == 2);
        assert(parts.push(p)[0] == parts[0]);
        assert(parts.push(p).drop_first() =~~= seq![p]);
        assert(join_with(parts.push(p).drop_first(), d) == p);
        assert(join_with(parts.push(p), d) == parts[0] + seq![d] + p);
        assert(join_with(parts, d) == parts[0]);
    } else {
        lemma_join_push(parts.drop_first(), d, p);
        assert(parts.push(p)[0] == parts[0]);
        assert(parts.push(p).drop_first() =~= parts.drop_first().push(p));
        assert(join_with(parts, d) + seq![d] + p =~= parts[0] + seq![d] + (join_with(
            parts.drop_first(),
            d,
        ) + seq![d] + p));
    }
}

/// Joining the unfiltered split gives the input back exactly.
pub proof fn lemma_join_split(s: Seq<char>, d: char)
    ensures
        join_with(split_on(s, d), d) == s,
    decreases s.len(),
{
    if s.len() == 0 {
    } else {
        lemma_join_split(s.drop_first(), d);
        lemma_split_len(s.drop_first(), d);
        let rest = split_on(s.drop_first(), d);
        if s[0] == d {
            assert(split_on(s, d).len() == 1 + rest.len());
            assert(split_on(s, d)[0] =~= Seq::<char>::empty());
            assert(split_on(s, d).drop_first() =~~= rest);
            assert(join_with(split_on(s, d), d) == split_on(s, d)[0] + seq![d] + join_with(
                rest,
                d,
            ));
            assert(join_with(split_on(s, d), d) =~= seq![d] + join_with(rest, d));
            assert(seq![d] + s.drop_first() =~= s);
        } else {
            if rest.len() == 1 {
                assert(split_on(s, d) =~= seq![seq![s[0]] + rest[0]]);
                assert(join_with(split_on(s, d), d) == seq![s[0]] + rest[0]);
                assert(seq![s[0]] + s.drop_first() =~= s);
            } else {
                assert(split_on(s, d) =~= seq![seq![s[0]] + rest[0]] + rest.drop_first());
                assert((seq![seq![s[0]] + rest[0]] + rest.drop_first()).drop_first()
                    =~= rest.drop_first());
                assert(join_with(split_on(s, d), d) =~= (seq![s[0]] + rest[0]) + seq![d]
                    + join_with(rest.drop_first(), d));
                assert(join_with(rest, d) =~= rest[0] + seq![d] + join_with(
                    rest.drop_first(),
                    d,
                ));
                assert(join_with(split_on(s, d), d) =~= seq![s[0]] + join_with(rest, d));
                assert(seq![s[0]] + s.drop_first() =~= s);
            }
        }
    }
}

/// Characters of a join: each is the delimiter or satisfies whatever all
/// segment characters satisfy.
pub proof fn lemma_join_chars(parts: Seq<Seq<char>>, d: char, p: spec_fn(char) -> bool)
    requires
        forall|i: int, j: int|
            0 <= i < parts.len() && 0 <= j < parts[i].len() ==> p(#[trigger] parts[i][j]),
    ensures
        forall|k: int|
            0 <= k < join_with(parts, d).len() ==> p(#[trigger] join_with(parts, d)[k])
                || join_with(parts, d)[k] == d,
    decreases parts.len(),
{
    if parts.len() == 0 {
    } else if parts.len() == 1 {
        assert(forall|j: int| 0 <= j < parts[0].len() ==> p(#[trigger] parts[0][j]));
    } else {
        lemma_join_chars(parts.drop_first(), d, p);
        let pre = parts[0] + seq![d];
        assert(join_with(parts, d) == pre + join_with(parts.drop_first(), d));
        assert forall|k: int| 0 <= k < join_with(parts, d).len() implies p(
            #[trigger] join_with(parts, d)[k],
        ) || join_with(parts, d)[k] == d by {
            if k < parts[0].len() {
                assert(join_with(parts, d)[k] == parts[0][k]);
            } else if k == parts[0].len() {
                assert(join_with(parts, d)[k] == d);
            } else {
                assert(join_with(parts, d)[k] == join_with(parts.drop_first(), d)[k - pre.len()]);
            }
        }
    }
}

/// Nonempty, delimiter-free segments join into a shaped sequence.
pub proof fn lemma_join_shape(parts: Seq<Seq<char>>, d: char)
    requires
        forall|i: int| 0 <= i < parts.len() ==> (#[trigger] parts[i]).len() > 0,
        forall|i: int, j: int|
            0 <= i < parts.len() && 0 <= j < parts[i].len() ==> #[trigger] parts[i][j] != d,
    ensures
        collapsed_shape(join_with(parts, d), d),
        join_with(parts, d).len() > 0 <==> parts.len() > 0,
    decreases parts.len(),
{
    if parts.len() == 0 {
    } else if parts.len() == 1 {
        assert(forall|j: int| 0 <= j < parts[0].len() ==> #[trigger] parts[0][j] != d);
    } else {
        lemma_join_shape(parts.drop_first(), d);
        let pre = parts[0] + seq![d];
        let tail = join_with(parts.drop_first(), d);
        assert(join_with(parts, d) == pre + tail);
        let s = join_with(parts, d);
        assert(forall|j: int| 0 <= j < parts[0].len() ==> #[trigger] parts[0][j] != d);
        assert(s[0] == parts[0][0]);
        assert(s[s.len() - 1] == tail[tail.len() - 1]);
        assert forall|i: int| 0 <= i < s.len() - 1 implies !(#[trigger] s[i] == d && s[i + 1]
            == d) by {
            if i < parts[0].len() {
                assert(s[i] == parts[0][i]);
            } else if i == parts[0].len() {
                assert(s[i + 1] == tail[0]);
            } else {
                assert(s[i] == tail[i - pre.len()]);
                assert(s[i + 1] == tail[i + 1 - pre.len()]);
            }
        }
    }
}

/// In a sequence with no doubled and no trailing delimiter, every segment
/// but possibly the first is nonempty; the first is too when the sequence
/// does not open with the delimiter.
pub proof fn lemma_split_shaped_nonempty(s: Seq<char>, d: char)
    requires
        forall|i: int| 0 <= i < s.len() - 1 ==> !(#[trigger] s[i] == d && s[i + 1] == d),
        s.len() > 0 ==> s[s.len() - 1] != d,
    ensures
        forall|i: int| 1 <= i < split_on(s, d).len() ==> (#[trigger] split_on(s, d)[i]).len() > 0,
        s.len() > 0 && s[0] != d ==> split_on(s, d)[0].len() > 0,
    decreases s.len(),
{
    if s.len() == 0 {
    } else {
        let rest = s.drop_first();
        assert forall|i: int| 0 <= i < rest.len() - 1 implies !(#[trigger] rest[i] == d && rest[i
            + 1] == d) by {
            assert(rest[i] == s[i + 1] && rest[i + 1] == s[i + 2]);
        }
        if s[0] == d {
            assert(s.len() >= 2);
            assert(rest[0] == s[1] && rest[0] != d);
            lemma_split_shaped_nonempty(rest, d);
            lemma_split_len(rest, d);
            assert forall|i: int| 1 <= i < split_on(s, d).len() implies (#[trigger] split_on(
                s,
                d,
            )[i]).len() > 0 by {
                assert(split_on(s, d)[i] == split_on(rest, d)[i - 1]);
            }
        } else {
            lemma_split_shaped_nonempty(rest, d);
            lemma_split_len(rest, d);
            let r = split_on(rest, d);
            assert(split_on(s, d)[0] == seq![s[0]] + r[0]);
            assert forall|i: int| 1 <= i < split_on(s, d).len() implies (#[trigger] split_on(
                s,
                d,
            )[i]).len() > 0 by {
                assert(split_on(s, d)[i] == r.drop_first()[i - 1]);
                assert(r.drop_first()[i - 1] == r[i]);
            }
        }
    }
}

/// Filtering keeps everything when every segment is nonempty.
pub proof fn lemma_filter_all_nonempty(parts: Seq<Seq<char>>)
    requires
        forall|i: int| 0 <= i < parts.len() ==> (#[trigger] parts[i]).len() > 0,
    ensures
        parts.filter(|p: Seq<char>| p.len() > 0) == parts,
    decreases parts.len(),
{
    reveal(Seq::filter);
    if parts.len() == 0 {
        assert(parts.filter(|p: Seq<char>| p.len() > 0) =~~= parts);
    } else {
        lemma_filter_all_nonempty(parts.drop_last());
        assert(parts.last().len() > 0);
        assert(parts.filter(|p: Seq<char>| p.len() > 0) == parts.drop_last().filter(
            |p: Seq<char>| p.len() > 0,
        ).push(parts.last()));
        assert(parts.drop_last().push(parts.last()) =~~= parts);
    }
}

/// Collapsing a shaped sequence gives it back unchanged.
pub proof fn lemma_collapsed_shaped_id(s: Seq<char>, d: char)
    requires
        collapsed_shape(s, d),
    ensures
        collapsed(s, d) == s,
{
    reveal_with_fuel(Seq::filter, 2);
    if s.len() == 0 {
        assert(split_on(s, d) == seq![Seq::<char>::empty()]);
        assert(split_on(s, d).drop_last() =~~= Seq::<Seq<char>>::empty());
        assert(split_on(s, d).filter(|p: Seq<char>| p.len() > 0) =~~= Seq::<Seq<char>>::empty());
    } else {
        lemma_split_shaped_nonempty(s, d);
        lemma_split_len(s, d);
        assert(forall|i: int|
            0 <= i < split_on(s, d).len() ==> (#[trigger] split_on(s, d)[i]).len() > 0);
        lemma_filter_all_nonempty(split_on(s, d));
        lemma_join_split(s, d);
    }
}

/// The collapse of any sequence is shaped, and each of its characters is the
/// delimiter or a non-delimiter character of the input.
pub proof fn lemma_collapsed_shape(s: Seq<char>, d: char)
    ensures
        collapsed_shape(collapsed(s, d), d),
        forall|k: int|
            0 <= k < collapsed(s, d).len() ==> #[trigger] collapsed(s, d)[k] == d || (s.contains(
                collapsed(s, d)[k],
            ) && collapsed(s, d)[k] != d),
{
    lemma_split_chars(s, d);
    let parts = split_on(s, d);
    let pred = |p: Seq<char>| p.len() > 0;
    let kept = parts.filter(pred);
    lemma_filter_elems(parts, pred);
    assert forall|i: int, j: int| 0 <= i < kept.len() && 0 <= j < kept[i].len() implies {
        &&& #[trigger] kept[i][j] != d
        &&& s.contains(kept[i][j])
    } by {
        parts.lemma_filter_pred(pred, i);
        assert(parts.contains(kept[i]));
        let i0 = choose|i0: int| 0 <= i0 < parts.len() && parts[i0] == kept[i];
        assert(parts[i0][j] != d && s.contains(parts[i0][j]));
    }
    lemma_join_shape(kept, d);
    lemma_join_chars(kept, d, |c: char| s.contains(c) && c != d);
}

/// Every filtered segment is one of the original segments.
pub proof fn lemma_filter_elems(parts: Seq<Seq<char>>, pred: spec_fn(Seq<char>) -> bool)
    ensures
        forall|i: int|
            0 <= i < parts.filter(pred).len() ==> parts.contains(#[trigger] parts.filter(pred)[i]),
    decreases parts.len(),
{
    reveal(Seq::filter);
    if parts.len() == 0 {
    } else {
        lemma_filter_elems(parts.drop_last(), pred);
        let sub = parts.drop_last().filter(pred);
        assert forall|i: int| 0 <= i < parts.filter(pred).len() implies parts.contains(
            #[trigger] parts.filter(pred)[i],
        ) by {
            if i < sub.len() {
                assert(parts.drop_last().contains(sub[i]));
                let j = choose|j: int|
                    0 <= j < parts.drop_last().len() && parts.drop_last()[j] == sub[i];
                assert(parts[j] == sub[i]);
            } else {
                assert(parts.filter(pred)[i] == parts.last());
                assert(parts[parts.len() - 1] == parts.last());
            }
        }
    }
}

/// Collapsing is idempotent.
pub proof fn lemma_collapsed_idempotent(s: Seq<char>, d: char)
    ensures
        collapsed(collapsed(s, d), d) == collapsed(s, d),
{
    lemma_collapsed_shape(s, d);
    lemma_collapsed_shaped_id(collapsed(s, d), d);
}

pub open spec fn vecs_view(r: Seq<Vec<char>>) -> Seq<Seq<char>> {
    r.map_values(|p: Vec<char>| p@)
}

pub fn split_chars(v: &Vec<char>, d: char) -> (r: Vec<Vec<char>>)
    ensures
        vecs_view(r@) == split_on(v@, d),
{
    let mut done: Vec<Vec<char>> = Vec::new();
    let mut cur: Vec<char> = Vec::new();
    let n = v.len();
    let mut i: usize = 0;
    while i < n
        invariant
            i <= n == v@.len(),
            vecs_view(done@).push(cur@) == split_on(v@.subrange(0, i as int), d),
        decreases n - i,
    {
        let c = v[i];
        proof {
            assert(v@.subrange(0, i + 1) =~= v@.subrange(0, i as int).push(v@[i as int]));
        }
        if c == d {
            proof {
                lemma_split_push_delim(v@.subrange(0, i as int), d);
            }
            let ghost old_done = done@;
            let ghost old_cur = cur@;
            done.push(cur);
            cur = Vec::new();
            proof {
                assert(vecs_view(done@) =~~= vecs_view(old_done).push(old_cur));
                assert(vecs_view(done@).push(cur@) =~~= split_on(v@.subrange(0, i + 1), d));
            }
        } else {
            proof {
                lemma_split_push_char(v@.subrange(0, i as int), d, c);
            }
            let ghost old_split = split_on(v@.subrange(0, i as int), d);
            cur.push(c);
            proof {
                assert(old_split.last() == split_on(v@.subrange(0, i as int), d).last());
                assert(vecs_view(done@) =~~= old_split.drop_last());
                assert(vecs_view(done@).push(cur@) =~~= split_on(v@.subrange(0, i + 1), d));
            }
        }
        i = i + 1;
    }
    proof {
        assert(v@.subrange(0, n as int) =~= v@);
    }
    done.push(cur);
    proof {
        assert(vecs_view(done@) =~~= split_on(v@, d));
    }
    done
}

pub fn filter_nonempty(parts: Vec<Vec<char>>) -> (r: Vec<Vec<char>>)
    ensures
        vecs_view(r@) == vecs_view(parts@).filter(|p: Seq<char>| p.len() > 0),
{
    proof {
        reveal(Seq::filter);
    }
    let mut r: Vec<Vec<char>> = Vec::new();
    let n = parts.len();
    let mut i: usize = 0;
    while i < n
        invariant
            i <= n == parts@.len(),
            vecs_view(r@) == vecs_view(parts@.subrange(0, i as int)).filter(
                |p: Seq<char>| p.len() > 0,
            ),
        decreases n - i,
    {
        proof {
            reveal(Seq::filter);
            assert(parts@.subrange(0, i + 1) =~= parts@.subrange(0, i as int).push(
                parts@[i as int],
            ));
            assert(vecs_view(parts@.subrange(0, i + 1)) =~~= vecs_view(
                parts@.subrange(0, i as int),
            ).push(parts@[i as int]@));
            assert(vecs_view(parts@.subrange(0, i + 1)).drop_last() =~~= vecs_view(
                parts@.subrange(0, i as int),
            ));
        }
        if parts[i].len() > 0 {
            let ghost old_r = r@;
            let p = clone_chars(&parts[i]);
            r.push(p);
            proof {
                assert(vecs_view(r@) =~~= vecs_view(old_r).push(parts@[i as int]@));
            }
        }
        i = i + 1;
    }
    proof {
        assert(parts@.subrange(0, n as int) =~= parts@);
    }
    r
}

pub fn clone_chars(v: &Vec<char>) -> (r: Vec<char>)
    ensures
        r@ == v@,
{
    let mut r: Vec<char> = Vec::new();
    let n = v.len();
    let mut i: usize = 0;
    while i < n
        invariant
            i <= n == v@.len(),
            r@ == v@.subrange(0, i as int),
        decreases n - i,
    {
        r.push(v[i]);
        proof {
            assert(r@ =~= v@.subrange(0, i + 1));
        }
        i = i + 1;
    }
    proof {
        assert(r@ =~= v@);
    }
    r
}

pub fn join_chars(parts: &Vec<Vec<char>>, d: char) -> (r: Vec<char>)
    ensures
        r@ == join_with(vecs_view(parts@), d),
{
    let mut r: Vec<char> = Vec::new();
    let n = parts.len();
    let mut i: usize = 0;
    while i < n
        invariant
            i <= n == parts@.len(),
            r@ == join_with(vecs_view(parts@.subrange(0, i as int)), d),
            i == 0 ==> r@.len() == 0,
        decreases n - i,
    {
        proof {
            lemma_join_push(vecs_view(parts@.subrange(0, i as int)), d, parts@[i as int]@);
            assert(parts@.subrange(0, i + 1) =~= parts@.subrange(0, i as int).push(
                parts@[i as int],
            ));
            assert(vecs_view(parts@.subrange(0, i + 1)) =~~= vecs_view(
                parts@.subrange(0, i as int),
            ).push(parts@[i as int]@));
        }
        if i > 0 {
            r.push(d);
        }
        let part = &parts[i];
        let m = part.len();
        let mut j: usize = 0;
        let ghost base = r@;
        while j < m
            invariant
                j <= m == part@.len(),
                r@ == base + part@.subrange(0, j as int),
            decreases m - j,
        {
            r.push(part[j]);
            proof {
                assert(base + part@.subrange(0, j + 1) =~= (base + part@.subrange(
                    0,
                    j as int,
                )).push(part@[j as int]));
            }
            j = j + 1;
        }
        proof {
            assert(part@.subrange(0, m as int) =~= part@);
            if i == 0 {
                assert(r@ =~= part@);
            } else {
                assert(r@ =~= join_with(vecs_view(parts@.subrange(0, i as int)), d) + seq![d]
                    + part@);
            }
        }
        i = i + 1;
    }
    proof {
        assert(parts@.subrange(0, n as int) =~= parts@);
    }
    r
}

/// Split on `d`, drop empty segments, rejoin with single `d`s.
pub fn collapse_chars(v: &Vec<char>, d: char) -> (r: Vec<char>)
    ensures
        r@ == collapsed(v@, d),
{
    let parts = split_chars(v, d);
    let kept = filter_nonempty(parts);
    join_chars(&kept, d)
}

} // verus!
