//! Verified text utilities: substring search, token replacement, splitting,
//! line handling and whitespace trimming over sequences of characters.
//!
//! Executable code works on `Vec<char>`, whose view is the same `Seq<char>`
//! as the view of `String`, so contracts stated here compose with the
//! string-typed public interface.

use vstd::prelude::*;

verus! {

use vstd::string::StrSliceExecFns;

/// The pattern `p` occurs in `t` starting at position `i`.
pub open spec fn contains_at(t: Seq<char>, p: Seq<char>, i: int) -> bool {
    0 <= i && i + p.len() <= t.len() && t.subrange(i, i + p.len() as int) == p
}

/// The pattern `p` occurs somewhere in `t`.
pub open spec fn contains_seq(t: Seq<char>, p: Seq<char>) -> bool {
    exists|i: int| contains_at(t, p, i)
}

/// `p` is a prefix of `t`.
pub open spec fn starts_with(t: Seq<char>, p: Seq<char>) -> bool {
    p.len() <= t.len() && t.subrange(0, p.len() as int) == p
}

/// Non-overlapping, left-to-right replacement of `from` by `to` in the
/// suffix of `t` that starts at position `i`.
pub open spec fn replace_all_from(t: Seq<char>, from: Seq<char>, to: Seq<char>, i: int) -> Seq<
    char,
>
    decreases t.len() - i,
{
    if from.len() == 0 {
        t.skip(i)
    } else if 0 <= i && i + from.len() <= t.len() && t.subrange(i, i + from.len() as int)
        == from {
        to + replace_all_from(t, from, to, i + from.len() as int)
    } else if 0 <= i && i < t.len() {
        seq![t[i]] + replace_all_from(t, from, to, i + 1)
    } else {
        Seq::empty()
    }
}

/// Replace every non-overlapping occurrence of `from` in `t` by `to`,
/// scanning from the left, as `str::replace` does.
pub open spec fn replace_all(t: Seq<char>, from: Seq<char>, to: Seq<char>) -> Seq<char> {
    replace_all_from(t, from, to, 0)
}

/// Split the suffix of `t` that starts at `i` on non-overlapping,
/// left-to-right occurrences of `sep`, keeping empty fragments.
pub open spec fn split_on_from(t: Seq<char>, sep: Seq<char>, i: int) -> Seq<Seq<char>>
    decreases t.len() - i,
{
    if sep.len() == 0 {
        seq![t.skip(i)]
    } else if 0 <= i && i + sep.len() <= t.len() && t.subrange(i, i + sep.len() as int) == sep {
        seq![Seq::<char>::empty()] + split_on_from(t, sep, i + sep.len() as int)
    } else if 0 <= i && i < t.len() {
        let rest = split_on_from(t, sep, i + 1);
        seq![seq![t[i]] + rest[0]] + rest.skip(1)
    } else {
        seq![Seq::<char>::empty()]
    }
}

/// Split `t` on occurrences of `sep`, as `str::split` does.
pub open spec fn split_on(t: Seq<char>, sep: Seq<char>) -> Seq<Seq<char>> {
    split_on_from(t, sep, 0)
}

/// Join `parts` with `sep` between consecutive parts.
pub open spec fn join_with(parts: Seq<Seq<char>>, sep: Seq<char>) -> Seq<char>
    decreases parts.len(),
{
    if parts.len() == 0 {
        Seq::empty()
    } else if parts.len() == 1 {
        parts[0]
    } else {
        parts[0] + sep + join_with(parts.skip(1), sep)
    }
}

/// A split always yields at least one fragment.
pub proof fn lemma_split_len(t: Seq<char>, sep: Seq<char>, i: int)
    ensures
        split_on_from(t, sep, i).len() >= 1,
    decreases t.len() - i,
{
    if sep.len() == 0 {
    } else if 0 <= i && i + sep.len() <= t.len() && t.subrange(i, i + sep.len() as int) == sep {
    } else if 0 <= i && i < t.len() {
        lemma_split_len(t, sep, i + 1);
    }
}

/// Replacing a token is the same as splitting on it and joining the
/// fragments with the replacement.
pub proof fn lemma_replace_is_join(t: Seq<char>, from: Seq<char>, to: Seq<char>, i: int)
    requires
        from.len() >= 1,
    ensures
        replace_all_from(t, from, to, i) == join_with(split_on_from(t, from, i), to),
    decreases t.len() - i,
{
    if 0 <= i && i + from.len() <= t.len() && t.subrange(i, i + from.len() as int) == from {
        lemma_replace_is_join(t, from, to, i + from.len() as int);
        lemma_split_len(t, from, i + from.len() as int);
        let rest = split_on_from(t, from, i + from.len() as int);
        assert(split_on_from(t, from, i) == seq![Seq::<char>::empty()] + rest);
        assert((seq![Seq::<char>::empty()] + rest).len() >= 2);
        assert((seq![Seq::<char>::empty()] + rest).skip(1) =~= rest);
        assert((seq![Seq::<char>::empty()] + rest)[0] =~= Seq::<char>::empty());
        assert(join_with(seq![Seq::<char>::empty()] + rest, to) == Seq::<char>::empty() + to
            + join_with(rest, to));
        assert(Seq::<char>::empty() + to =~= to);
        assert((Seq::<char>::empty() + to) + join_with(rest, to) =~= to + join_with(rest, to));
    } else if 0 <= i && i < t.len() {
        lemma_replace_is_join(t, from, to, i + 1);
        lemma_split_len(t, from, i + 1);
        let rest = split_on_from(t, from, i + 1);
        let first = seq![t[i]] + rest[0];
        assert(split_on_from(t, from, i) == seq![first] + rest.skip(1));
        if rest.len() == 1 {
            assert((seq![first] + rest.skip(1)).len() == 1);
            assert((seq![first] + rest.skip(1))[0] == first);
            assert(join_with(rest, to) == rest[0]);
            assert(seq![t[i]] + rest[0] =~= seq![t[i]] + join_with(rest, to));
        } else {
            let parts = seq![first] + rest.skip(1);
            assert(parts.len() >= 2);
            assert(parts[0] == first);
            assert(parts.skip(1) =~= rest.skip(1));
            assert(join_with(parts, to) == first + to + join_with(rest.skip(1), to));
            assert(join_with(rest, to) == rest[0] + to + join_with(rest.skip(1), to));
            assert(first + to + join_with(rest.skip(1), to) =~= seq![t[i]] + (rest[0] + to
                + join_with(rest.skip(1), to)));
        }
    } else {
        assert(join_with(seq![Seq::<char>::empty()], to) == Seq::<char>::empty());
    }
}

/// The views of the strings in `s`, elementwise.
pub open spec fn str_views(s: Seq<String>) -> Seq<Seq<char>> {
    Seq::new(s.len(), |i: int| s[i]@)
}

/// Joining after appending one part appends a separator and the part.
pub proof fn lemma_join_push(parts: Seq<Seq<char>>, sep: Seq<char>, x: Seq<char>)
    ensures
        join_with(parts.push(x), sep) == if parts.len() == 0 {
            x
        } else {
            join_with(parts, sep) + sep + x
        },
    decreases parts.len(),
{
    if parts.len() == 0 {
        assert(parts.push(x).len() == 1);
        assert(parts.push(x)[0] == x);
    } else {
        lemma_join_push(parts.skip(1), sep, x);
        assert(parts.push(x).skip(1) =~= parts.skip(1).push(x));
        assert(parts.push(x)[0] == parts[0]);
        if parts.len() == 1 {
            assert(parts.skip(1).len() == 0);
            assert(join_with(parts.push(x), sep) == parts[0] + sep + x);
            assert(join_with(parts, sep) == parts[0]);
        } else {
            assert(join_with(parts.push(x), sep) == parts[0] + sep + join_with(
                parts.skip(1).push(x),
                sep,
            ));
            assert(join_with(parts.skip(1).push(x), sep) == join_with(parts.skip(1), sep) + sep
                + x);
            assert(parts[0] + sep + (join_with(parts.skip(1), sep) + sep + x) =~= (parts[0] + sep
                + join_with(parts.skip(1), sep)) + sep + x);
        }
    }
}

/// No character of `s` equals `c`.
pub open spec fn avoids_char(s: Seq<char>, c: char) -> bool {
    forall|i: int| 0 <= i < s.len() ==> s[i] != c
}

/// Replacing in a suffix is replacing in the skipped text.
pub proof fn lemma_replace_shift(t: Seq<char>, from: Seq<char>, to: Seq<char>, i: int)
    requires
        from.len() >= 1,
        0 <= i <= t.len(),
    ensures
        replace_all_from(t, from, to, i) == replace_all(t.skip(i), from, to),
    decreases t.len() - i,
{
    let s = t.skip(i);
    if i + from.len() <= t.len() && t.subrange(i, i + from.len() as int) == from {
        assert(s.subrange(0, from.len() as int) =~= t.subrange(i, i + from.len() as int));
        lemma_replace_shift(t, from, to, i + from.len() as int);
        assert(s.skip(from.len() as int) =~= t.skip(i + from.len() as int));
        lemma_replace_shift(s, from, to, from.len() as int);
    } else if i < t.len() {
        assert(s[0] == t[i]);
        if 0 + from.len() <= s.len() && s.subrange(0, from.len() as int) == from {
            assert(t.subrange(i, i + from.len() as int) =~= s.subrange(0, from.len() as int));
        }
        lemma_replace_shift(t, from, to, i + 1);
        assert(s.skip(1) =~= t.skip(i + 1));
        lemma_replace_shift(s, from, to, 1);
        assert(replace_all_from(s, from, to, 0) == seq![s[0]] + replace_all_from(s, from, to, 1));
    } else {
        assert(s.len() == 0);
    }
}

/// Replacement in text that holds no occurrence of the pattern is the
/// identity.
pub proof fn lemma_replace_absent(t: Seq<char>, from: Seq<char>, to: Seq<char>)
    requires
        from.len() >= 1,
        forall|j: int|
            0 <= j && j + from.len() <= t.len() ==> #[trigger] t.subrange(
                j,
                j + from.len() as int,
            ) != from,
    ensures
        replace_all(t, from, to) == t,
    decreases t.len(),
{
    if t.len() > 0 {
        assert forall|j: int|
            0 <= j && j + from.len() <= t.skip(1).len() implies #[trigger] t.skip(1).subrange(
            j,
            j + from.len() as int,
        ) != from by {
            assert(t.skip(1).subrange(j, j + from.len() as int) =~= t.subrange(
                j + 1,
                j + 1 + from.len() as int,
            ));
        }
        lemma_replace_absent(t.skip(1), from, to);
        lemma_replace_shift(t, from, to, 1);
        assert(replace_all(t, from, to) == seq![t[0]] + t.skip(1));
        assert(seq![t[0]] + t.skip(1) =~= t);
    }
}

/// When no occurrence of the pattern crosses position `k`, replacement
/// factors into replacement of the two halves.
pub proof fn lemma_replace_factor(t: Seq<char>, from: Seq<char>, to: Seq<char>, k: int)
    requires
        from.len() >= 1,
        0 <= k <= t.len(),
        forall|j: int|
            0 <= j < k && j + from.len() > k && j + from.len() <= t.len() ==> #[trigger] t.subrange(
                j,
                j + from.len() as int,
            ) != from,
    ensures
        replace_all(t, from, to) == replace_all(t.take(k), from, to) + replace_all(
            t.skip(k),
            from,
            to,
        ),
    decreases t.len(),
{
    let u = t.take(k);
    if k == 0 {
        assert(u =~= Seq::<char>::empty());
        assert(replace_all(u, from, to) == Seq::<char>::empty());
        assert(t.skip(0) =~= t);
        assert(Seq::<char>::empty() + replace_all(t, from, to) =~= replace_all(t, from, to));
    } else if 0 + from.len() <= t.len() && t.subrange(0, from.len() as int) == from {
        // A match at the very start; it cannot cross `k`.
        let m = from.len() as int;
        assert(m <= k);
        assert(u.subrange(0, m) =~= t.subrange(0, m));
        lemma_replace_shift(t, from, to, m);
        lemma_replace_shift(u, from, to, m);
        assert forall|j: int|
            0 <= j < k - m && j + from.len() > k - m && j + from.len() <= t.skip(m).len() implies #[trigger] t
            .skip(m).subrange(j, j + from.len() as int) != from by {
            assert(t.skip(m).subrange(j, j + from.len() as int) =~= t.subrange(
                j + m,
                j + m + from.len() as int,
            ));
        }
        lemma_replace_factor(t.skip(m), from, to, k - m);
        assert(t.skip(m).take(k - m) =~= u.skip(m));
        assert(t.skip(m).skip(k - m) =~= t.skip(k));
        assert(replace_all(t, from, to) == to + replace_all(t.skip(m), from, to));
        assert(replace_all(u, from, to) == to + replace_all(u.skip(m), from, to));
        assert(to + (replace_all(u.skip(m), from, to) + replace_all(t.skip(k), from, to)) =~= (to
            + replace_all(u.skip(m), from, to)) + replace_all(t.skip(k), from, to));
    } else {
        // No match at the start of `t`, hence none at the start of the
        // first half either.
        assert(t.len() > 0);
        if 0 + from.len() <= u.len() && u.subrange(0, from.len() as int) == from {
            assert(t.subrange(0, from.len() as int) =~= u.subrange(0, from.len() as int));
        }
        lemma_replace_shift(t, from, to, 1);
        lemma_replace_shift(u, from, to, 1);
        assert forall|j: int|
            0 <= j < k - 1 && j + from.len() > k - 1 && j + from.len() <= t.skip(1).len() implies #[trigger] t
            .skip(1).subrange(j, j + from.len() as int) != from by {
            assert(t.skip(1).subrange(j, j + from.len() as int) =~= t.subrange(
                j + 1,
                j + 1 + from.len() as int,
            ));
        }
        lemma_replace_factor(t.skip(1), from, to, k - 1);
        assert(t.skip(1).take(k - 1) =~= u.skip(1));
        assert(t.skip(1).skip(k - 1) =~= t.skip(k));
        assert(u[0] == t[0]);
        assert(replace_all(t, from, to) == seq![t[0]] + replace_all(t.skip(1), from, to));
        assert(replace_all(u, from, to) == seq![t[0]] + replace_all(u.skip(1), from, to));
        assert(seq![t[0]] + (replace_all(u.skip(1), from, to) + replace_all(t.skip(k), from, to))
            =~= (seq![t[0]] + replace_all(u.skip(1), from, to)) + replace_all(t.skip(k), from, to));
    }
}

/// Splitting a suffix is splitting the skipped text.
pub proof fn lemma_split_shift(t: Seq<char>, sep: Seq<char>, i: int)
    requires
        sep.len() >= 1,
        0 <= i <= t.len(),
    ensures
        split_on_from(t, sep, i) == split_on(t.skip(i), sep),
    decreases t.len() - i,
{
    let s = t.skip(i);
    if i + sep.len() <= t.len() && t.subrange(i, i + sep.len() as int) == sep {
        assert(s.subrange(0, sep.len() as int) =~= t.subrange(i, i + sep.len() as int));
        lemma_split_shift(t, sep, i + sep.len() as int);
        assert(s.skip(sep.len() as int) =~= t.skip(i + sep.len() as int));
        assert(split_on_from(s, sep, 0) == seq![Seq::<char>::empty()] + split_on_from(
            s,
            sep,
            sep.len() as int,
        ));
        lemma_split_shift(s, sep, sep.len() as int);
    } else if i < t.len() {
        assert(s[0] == t[i]);
        if 0 + sep.len() <= s.len() && s.subrange(0, sep.len() as int) == sep {
            assert(t.subrange(i, i + sep.len() as int) =~= s.subrange(0, sep.len() as int));
        }
        lemma_split_shift(t, sep, i + 1);
        assert(s.skip(1) =~= t.skip(i + 1));
        lemma_split_shift(s, sep, 1);
        assert(split_on_from(s, sep, 0) == seq![seq![s[0]] + split_on_from(s, sep, 1)[0]]
            + split_on_from(s, sep, 1).skip(1));
    } else {
        assert(s.len() == 0);
    }
}

/// Walking a stretch that cannot start a separator only extends the first
/// fragment of the split.
pub proof fn lemma_split_walk(t: Seq<char>, sep: Seq<char>, i: int, k: int)
    requires
        sep.len() >= 1,
        0 <= i <= k <= t.len(),
        forall|j: int| i <= j < k ==> t[j] != sep[0],
    ensures
        split_on_from(t, sep, i).len() >= 1,
        split_on_from(t, sep, k).len() >= 1,
        split_on_from(t, sep, i)[0] == t.subrange(i, k) + split_on_from(t, sep, k)[0],
        split_on_from(t, sep, i).skip(1) == split_on_from(t, sep, k).skip(1),
    decreases k - i,
{
    lemma_split_len(t, sep, i);
    lemma_split_len(t, sep, k);
    if i < k {
        // No separator can begin here: its first character would have to
        // appear at position i.
        if i + sep.len() <= t.len() && t.subrange(i, i + sep.len() as int) == sep {
            assert(t[i] == t.subrange(i, i + sep.len() as int)[0]);
        }
        lemma_split_walk(t, sep, i + 1, k);
        let rest = split_on_from(t, sep, i + 1);
        assert(split_on_from(t, sep, i) == seq![seq![t[i]] + rest[0]] + rest.skip(1));
        assert(split_on_from(t, sep, i)[0] == seq![t[i]] + rest[0]);
        assert(seq![t[i]] + (t.subrange(i + 1, k) + split_on_from(t, sep, k)[0]) =~= t.subrange(
            i,
            k,
        ) + split_on_from(t, sep, k)[0]);
        assert(split_on_from(t, sep, i).skip(1) =~= rest.skip(1));
    } else {
        assert(t.subrange(i, k) =~= Seq::<char>::empty());
        assert(Seq::<char>::empty() + split_on_from(t, sep, k)[0] =~= split_on_from(
            t,
            sep,
            k,
        )[0]);
    }
}

/// Splitting undoes joining: when no fragment contains the separator's
/// first character, splitting the joined text on the separator yields the
/// fragments again.
pub proof fn lemma_split_join_inverse(gs: Seq<Seq<char>>, sep: Seq<char>)
    requires
        sep.len() >= 1,
        gs.len() >= 1,
        forall|i: int| 0 <= i < gs.len() ==> avoids_char(#[trigger] gs[i], sep[0]),
    ensures
        split_on(join_with(gs, sep), sep) == gs,
    decreases gs.len(),
{
    let t = join_with(gs, sep);
    let f0 = gs[0];
    let flen = f0.len() as int;
    if gs.len() == 1 {
        assert(t == f0);
        assert(forall|j: int| 0 <= j < t.len() ==> t[j] != sep[0]);
        lemma_split_walk(t, sep, 0, t.len() as int);
        assert(split_on_from(t, sep, t.len() as int) =~= seq![Seq::<char>::empty()]);
        assert(split_on(t, sep)[0] =~= f0);
        assert(split_on(t, sep).skip(1) =~= Seq::<Seq<char>>::empty());
        lemma_split_len(t, sep, 0);
        assert(split_on(t, sep) =~= seq![split_on(t, sep)[0]] + split_on(t, sep).skip(1));
        assert(split_on(t, sep) =~= gs);
    } else {
        let tail = join_with(gs.skip(1), sep);
        assert(t == f0 + sep + tail);
        assert(forall|j: int| 0 <= j < flen ==> t[j] == f0[j]);
        lemma_split_walk(t, sep, 0, flen);
        assert(t.subrange(flen, flen + sep.len() as int) =~= sep);
        assert(split_on_from(t, sep, flen) == seq![Seq::<char>::empty()] + split_on_from(
            t,
            sep,
            flen + sep.len() as int,
        ));
        lemma_split_shift(t, sep, flen + sep.len() as int);
        assert(t.skip(flen + sep.len() as int) =~= tail);
        assert forall|i: int| 0 <= i < gs.skip(1).len() implies avoids_char(
            #[trigger] gs.skip(1)[i],
            sep[0],
        ) by {
            assert(gs.skip(1)[i] == gs[i + 1]);
        }
        lemma_split_join_inverse(gs.skip(1), sep);
        lemma_split_len(t, sep, flen + sep.len() as int);
        let sub = split_on_from(t, sep, flen + sep.len() as int);
        assert(sub == gs.skip(1));
        assert(split_on_from(t, sep, flen)[0] =~= Seq::<char>::empty());
        assert(split_on_from(t, sep, flen).skip(1) =~= sub);
        assert(split_on(t, sep)[0] == t.subrange(0, flen) + Seq::<char>::empty());
        assert(t.subrange(0, flen) + Seq::<char>::empty() =~= f0);
        assert(split_on(t, sep).skip(1) == sub);
        lemma_split_len(t, sep, 0);
        assert(split_on(t, sep) =~= seq![split_on(t, sep)[0]] + split_on(t, sep).skip(1));
        assert(seq![f0] + gs.skip(1) =~= gs);
    }
}

/// Replacement leaves a character class untouched when neither the text
/// nor the replacement uses it.
pub proof fn lemma_replace_avoids(t: Seq<char>, from: Seq<char>, to: Seq<char>, c: char)
    requires
        from.len() >= 1,
        avoids_char(t, c),
        avoids_char(to, c),
    ensures
        avoids_char(replace_all(t, from, to), c),
    decreases t.len(),
{
    let m = from.len() as int;
    if 0 + m <= t.len() && t.subrange(0, m) == from {
        assert(avoids_char(t.skip(m), c));
        lemma_replace_avoids(t.skip(m), from, to, c);
        lemma_replace_shift(t, from, to, m);
        assert(replace_all(t, from, to) == to + replace_all(t.skip(m), from, to));
        assert forall|i: int| 0 <= i < replace_all(t, from, to).len() implies replace_all(
            t,
            from,
            to,
        )[i] != c by {
            if i < to.len() {
            } else {
                assert(replace_all(t, from, to)[i] == replace_all(t.skip(m), from, to)[i
                    - to.len()]);
            }
        }
    } else if t.len() > 0 {
        assert(avoids_char(t.skip(1), c));
        lemma_replace_avoids(t.skip(1), from, to, c);
        lemma_replace_shift(t, from, to, 1);
        assert(replace_all(t, from, to) == seq![t[0]] + replace_all(t.skip(1), from, to));
        assert forall|i: int| 0 <= i < replace_all(t, from, to).len() implies replace_all(
            t,
            from,
            to,
        )[i] != c by {
            if i >= 1 {
                assert(replace_all(t, from, to)[i] == replace_all(t.skip(1), from, to)[i - 1]);
            }
        }
    }
}

/// Splitting text that never uses a character yields fragments that never
/// use it either.
pub proof fn lemma_split_avoids(t: Seq<char>, sep: Seq<char>, c: char, i: int)
    requires
        avoids_char(t, c),
        0 <= i <= t.len(),
    ensures
        forall|k: int|
            0 <= k < split_on_from(t, sep, i).len() ==> avoids_char(
                #[trigger] split_on_from(t, sep, i)[k],
                c,
            ),
    decreases t.len() - i,
{
    if sep.len() == 0 {
        assert(avoids_char(t.skip(i), c));
    } else if 0 <= i && i + sep.len() <= t.len() && t.subrange(i, i + sep.len() as int) == sep {
        lemma_split_avoids(t, sep, c, i + sep.len() as int);
        let rest = split_on_from(t, sep, i + sep.len() as int);
        assert forall|k: int|
            0 <= k < split_on_from(t, sep, i).len() implies avoids_char(
            #[trigger] split_on_from(t, sep, i)[k],
            c,
        ) by {
            if k >= 1 {
                assert(split_on_from(t, sep, i)[k] == rest[k - 1]);
            }
        }
    } else if 0 <= i && i < t.len() {
        lemma_split_avoids(t, sep, c, i + 1);
        lemma_split_len(t, sep, i + 1);
        let rest = split_on_from(t, sep, i + 1);
        assert forall|k: int|
            0 <= k < split_on_from(t, sep, i).len() implies avoids_char(
            #[trigger] split_on_from(t, sep, i)[k],
            c,
        ) by {
            if k == 0 {
                assert(split_on_from(t, sep, i)[0] == seq![t[i]] + rest[0]);
                assert(avoids_char(rest[0], c));
                assert forall|j: int|
                    0 <= j < (seq![t[i]] + rest[0]).len() implies (seq![t[i]] + rest[0])[j]
                    != c by {
                    if j >= 1 {
                        assert((seq![t[i]] + rest[0])[j] == rest[0][j - 1]);
                    }
                }
            } else {
                assert(split_on_from(t, sep, i)[k] == rest.skip(1)[k - 1]);
                assert(rest.skip(1)[k - 1] == rest[k]);
            }
        }
    } else {
        assert(split_on_from(t, sep, i) =~= seq![Seq::<char>::empty()]);
        assert(avoids_char(Seq::<char>::empty(), c));
    }
}

/// Replacement distributes over a join when the pattern never uses the
/// separator's first character and the separator never uses the pattern's
/// first character: no occurrence can then touch a separator, so each
/// fragment is rewritten on its own.
pub proof fn lemma_replace_join_distrib(
    gs: Seq<Seq<char>>,
    sep: Seq<char>,
    from: Seq<char>,
    to: Seq<char>,
)
    requires
        gs.len() >= 1,
        sep.len() >= 1,
        from.len() >= 1,
        avoids_char(from, sep[0]),
        forall|i: int| 0 <= i < sep.len() ==> sep[i] != from[0],
    ensures
        replace_all(join_with(gs, sep), from, to) == join_with(
            Seq::new(gs.len(), |i: int| replace_all(gs[i], from, to)),
            sep,
        ),
    decreases gs.len(),
{
    let t = join_with(gs, sep);
    let mapped = Seq::new(gs.len(), |i: int| replace_all(gs[i], from, to));
    if gs.len() == 1 {
        assert(t == gs[0]);
        assert(join_with(mapped, sep) == mapped[0]);
    } else {
        let tail = join_with(gs.skip(1), sep);
        assert(t == gs[0] + sep + tail);
        let k1 = gs[0].len() as int;
        let flen = from.len() as int;
        assert(t[k1] == sep[0]);
        assert forall|j: int|
            0 <= j < k1 && j + from.len() > k1 && j + from.len() <= t.len() implies #[trigger] t
            .subrange(j, j + from.len() as int) != from by {
            if t.subrange(j, j + flen) == from {
                assert(t.subrange(j, j + flen)[k1 - j] == t[k1]);
                assert(from[k1 - j] == sep[0]);
            }
        }
        lemma_replace_factor(t, from, to, k1);
        assert(t.take(k1) =~= gs[0]);
        let u = t.skip(k1);
        assert(u =~= sep + tail);
        let k2 = sep.len() as int;
        assert forall|j: int|
            0 <= j < k2 && j + from.len() > k2 && j + from.len() <= u.len() implies #[trigger] u
            .subrange(j, j + from.len() as int) != from by {
            if u.subrange(j, j + flen) == from {
                assert(u.subrange(j, j + flen)[0] == u[j]);
                assert(u[j] == sep[j]);
                assert(sep[j] == from[0]);
            }
        }
        lemma_replace_factor(u, from, to, k2);
        assert(u.take(k2) =~= sep);
        assert(u.skip(k2) =~= tail);
        assert forall|j: int|
            0 <= j && j + from.len() <= sep.len() implies #[trigger] sep.subrange(
            j,
            j + from.len() as int,
        ) != from by {
            if sep.subrange(j, j + flen) == from {
                assert(sep.subrange(j, j + flen)[0] == sep[j]);
                assert(sep[j] == from[0]);
            }
        }
        lemma_replace_absent(sep, from, to);
        lemma_replace_join_distrib(gs.skip(1), sep, from, to);
        let mapped_tail = Seq::new(gs.skip(1).len(), |i: int| replace_all(gs.skip(1)[i], from, to));
        assert(mapped.skip(1) =~= mapped_tail);
        assert(replace_all(t, from, to) == replace_all(gs[0], from, to) + (sep + replace_all(
            tail,
            from,
            to,
        )));
        assert(join_with(mapped, sep) == mapped[0] + sep + join_with(mapped.skip(1), sep));
        assert(replace_all(gs[0], from, to) + (sep + replace_all(tail, from, to)) =~= mapped[0]
            + sep + join_with(mapped_tail, sep));
    }
}

/// Prefixing the first fragment prefixes the join.
pub proof fn lemma_join_prefix_first(gs: Seq<Seq<char>>, sep: Seq<char>, p: Seq<char>)
    requires
        gs.len() >= 1,
    ensures
        join_with(gs.update(0, p + gs[0]), sep) == p + join_with(gs, sep),
{
    let upd = gs.update(0, p + gs[0]);
    if gs.len() == 1 {
        assert(join_with(upd, sep) == upd[0]);
    } else {
        assert(upd.skip(1) =~= gs.skip(1));
        assert(join_with(upd, sep) == (p + gs[0]) + sep + join_with(gs.skip(1), sep));
        assert((p + gs[0]) + sep + join_with(gs.skip(1), sep) =~= p + (gs[0] + sep + join_with(
            gs.skip(1),
            sep,
        )));
    }
}

/// Suffixing the last fragment suffixes the join.
pub proof fn lemma_join_suffix_last(gs: Seq<Seq<char>>, sep: Seq<char>, s: Seq<char>)
    requires
        gs.len() >= 1,
    ensures
        join_with(gs.update(gs.len() - 1, gs.last() + s), sep) == join_with(gs, sep) + s,
    decreases gs.len(),
{
    let upd = gs.update(gs.len() - 1, gs.last() + s);
    if gs.len() == 1 {
        assert(join_with(upd, sep) == upd[0]);
        assert(upd[0] == gs[0] + s);
    } else {
        lemma_join_suffix_last(gs.skip(1), sep, s);
        assert(upd.skip(1) =~= gs.skip(1).update(gs.skip(1).len() - 1, gs.skip(1).last() + s));
        assert(upd[0] == gs[0]);
        assert(join_with(upd, sep) == gs[0] + sep + (join_with(gs.skip(1), sep) + s));
        assert(gs[0] + sep + (join_with(gs.skip(1), sep) + s) =~= (gs[0] + sep + join_with(
            gs.skip(1),
            sep,
        )) + s);
    }
}

/// Concatenation preserves character avoidance.
pub proof fn lemma_avoids_concat(x: Seq<char>, y: Seq<char>, c: char)
    requires
        avoids_char(x, c),
        avoids_char(y, c),
    ensures
        avoids_char(x + y, c),
{
    assert forall|j: int| 0 <= j < (x + y).len() implies (x + y)[j] != c by {
        if j >= x.len() {
            assert((x + y)[j] == y[j - x.len()]);
        }
    }
}

/// Splitting separator-free text yields the text as its only fragment.
pub proof fn lemma_split_free(t: Seq<char>, c: char)
    requires
        avoids_char(t, c),
    ensures
        split_on(t, seq![c]) == seq![t],
{
    assert(seq![c].len() == 1);
    assert(forall|j: int| 0 <= j < t.len() ==> t[j] != seq![c][0]);
    lemma_split_walk(t, seq![c], 0, t.len() as int);
    assert(split_on_from(t, seq![c], t.len() as int) =~= seq![Seq::<char>::empty()]);
    assert(split_on(t, seq![c])[0] =~= t.subrange(0, t.len() as int) + Seq::<char>::empty());
    assert(t.subrange(0, t.len() as int) + Seq::<char>::empty() =~= t);
    assert(split_on(t, seq![c]).skip(1) =~= Seq::<Seq<char>>::empty());
    lemma_split_len(t, seq![c], 0);
    assert(split_on(t, seq![c]) =~= seq![split_on(t, seq![c])[0]] + split_on(t, seq![c]).skip(1));
    assert(seq![t] + Seq::<Seq<char>>::empty() =~= seq![t]);
}

/// Splitting a concatenation on a one-character separator splits the two
/// halves and glues the fragments that meet at the seam.
pub proof fn lemma_split_concat_single(a: Seq<char>, b: Seq<char>, c: char)
    ensures
        ({
            let sa = split_on(a, seq![c]);
            let sb = split_on(b, seq![c]);
            split_on(a + b, seq![c]) == sa.drop_last() + seq![sa.last() + sb[0]] + sb.skip(1)
        }),
    decreases a.len(),
{
    let sep = seq![c];
    let sa = split_on(a, sep);
    let sb = split_on(b, sep);
    lemma_split_len(a, sep, 0);
    lemma_split_len(b, sep, 0);
    let t = a + b;
    if a.len() == 0 {
        assert(t =~= b);
        assert(sa =~= seq![Seq::<char>::empty()]);
        assert(sa.drop_last() =~= Seq::<Seq<char>>::empty());
        assert(sa.last() + sb[0] =~= sb[0]);
        assert(sa.drop_last() + seq![sb[0]] + sb.skip(1) =~= seq![sb[0]] + sb.skip(1));
        assert(seq![sb[0]] + sb.skip(1) =~= sb);
    } else if a[0] == c {
        let a2 = a.skip(1);
        let sa2 = split_on(a2, sep);
        lemma_split_len(a2, sep, 0);
        lemma_split_concat_single(a2, b, c);
        assert(t.subrange(0, 1) =~= sep);
        lemma_split_shift(t, sep, 1);
        assert(t.skip(1) =~= a2 + b);
        assert(split_on(t, sep) == seq![Seq::<char>::empty()] + split_on(a2 + b, sep));
        assert(a.subrange(0, 1) =~= sep);
        lemma_split_shift(a, sep, 1);
        assert(a.skip(1) =~= a2);
        assert(sa == seq![Seq::<char>::empty()] + sa2);
        assert(sa.last() == sa2.last());
        assert(sa.drop_last() =~= seq![Seq::<char>::empty()] + sa2.drop_last());
        assert(split_on(t, sep) =~= seq![Seq::<char>::empty()] + (sa2.drop_last() + seq![
            sa2.last() + sb[0],
        ] + sb.skip(1)));
        assert(seq![Seq::<char>::empty()] + (sa2.drop_last() + seq![sa2.last() + sb[0]]
            + sb.skip(1)) =~= (seq![Seq::<char>::empty()] + sa2.drop_last()) + seq![
            sa2.last() + sb[0],
        ] + sb.skip(1));
    } else {
        let a2 = a.skip(1);
        let sa2 = split_on(a2, sep);
        lemma_split_len(a2, sep, 0);
        lemma_split_concat_single(a2, b, c);
        let st2 = split_on(a2 + b, sep);
        lemma_split_len(a2 + b, sep, 0);
        assert(t[0] == a[0]);
        if t.subrange(0, 1) == sep {
            assert(t.subrange(0, 1)[0] == t[0]);
        }
        lemma_split_shift(t, sep, 1);
        assert(t.skip(1) =~= a2 + b);
        assert(split_on(t, sep) == seq![seq![t[0]] + st2[0]] + st2.skip(1));
        if a.subrange(0, 1) == sep {
            assert(a.subrange(0, 1)[0] == a[0]);
        }
        lemma_split_shift(a, sep, 1);
        assert(a.skip(1) =~= a2);
        assert(sa == seq![seq![a[0]] + sa2[0]] + sa2.skip(1));
        if sa2.len() == 1 {
            assert(st2 =~= sa2.drop_last() + seq![sa2.last() + sb[0]] + sb.skip(1));
            assert(sa2.drop_last() =~= Seq::<Seq<char>>::empty());
            assert(st2 =~= seq![sa2[0] + sb[0]] + sb.skip(1));
            assert(st2[0] == sa2[0] + sb[0]);
            assert(st2.skip(1) =~= sb.skip(1));
            assert(sa =~= seq![seq![a[0]] + sa2[0]]);
            assert(sa.drop_last() =~= Seq::<Seq<char>>::empty());
            assert(sa.last() == seq![a[0]] + sa2[0]);
            assert(seq![t[0]] + (sa2[0] + sb[0]) =~= (seq![a[0]] + sa2[0]) + sb[0]);
            assert(split_on(t, sep) =~= seq![(seq![a[0]] + sa2[0]) + sb[0]] + sb.skip(1));
            assert(sa.drop_last() + seq![sa.last() + sb[0]] + sb.skip(1) =~= seq![
                (seq![a[0]] + sa2[0]) + sb[0],
            ] + sb.skip(1));
        } else {
            assert(st2 == sa2.drop_last() + seq![sa2.last() + sb[0]] + sb.skip(1));
            assert(st2[0] == sa2.drop_last()[0]);
            assert(sa2.drop_last()[0] == sa2[0]);
            assert(sa.last() == sa2.last());
            assert(sa.drop_last() =~= seq![seq![a[0]] + sa2[0]] + sa2.skip(1).drop_last());
            assert(st2.skip(1) =~= sa2.drop_last().skip(1) + seq![sa2.last() + sb[0]]
                + sb.skip(1));
            assert(sa2.drop_last().skip(1) =~= sa2.skip(1).drop_last());
            assert(split_on(t, sep) =~= seq![seq![t[0]] + sa2[0]] + (sa2.skip(1).drop_last()
                + seq![sa2.last() + sb[0]] + sb.skip(1)));
            assert(seq![seq![t[0]] + sa2[0]] + (sa2.skip(1).drop_last() + seq![
                sa2.last() + sb[0],
            ] + sb.skip(1)) =~= (seq![seq![a[0]] + sa2[0]] + sa2.skip(1).drop_last()) + seq![
                sa2.last() + sb[0],
            ] + sb.skip(1));
        }
    }
}

/// A whitespace character, as trailing-whitespace trimming understands it.
pub open spec fn is_wspace(c: char) -> bool {
    c == ' ' || c == '\t' || c == '\n' || c == '\r'
}

/// `t` with every trailing whitespace character removed.
pub open spec fn trim_end_spec(t: Seq<char>) -> Seq<char>
    decreases t.len(),
{
    if t.len() > 0 && is_wspace(t.last()) {
        trim_end_spec(t.drop_last())
    } else {
        t
    }
}

/// Trimming keeps a prefix of the text, so avoided characters stay
/// avoided.
pub proof fn lemma_trim_end_avoids(t: Seq<char>, c: char)
    requires
        avoids_char(t, c),
    ensures
        avoids_char(trim_end_spec(t), c),
    decreases t.len(),
{
    if t.len() > 0 && is_wspace(t.last()) {
        assert(avoids_char(t.drop_last(), c));
        lemma_trim_end_avoids(t.drop_last(), c);
    }
}

/// When the second half keeps a non-whitespace character, trimming a
/// concatenation only trims the second half.
pub proof fn lemma_trim_end_concat(a: Seq<char>, b: Seq<char>)
    requires
        exists|j: int| 0 <= j < b.len() && !is_wspace(#[trigger] b[j]),
    ensures
        trim_end_spec(a + b) == a + trim_end_spec(b),
    decreases b.len(),
{
    let t = a + b;
    if is_wspace(t.last()) {
        let j = choose|j: int| 0 <= j < b.len() && !is_wspace(#[trigger] b[j]);
        assert(b.last() == t.last());
        assert(is_wspace(b.last()));
        assert(j < b.len() - 1);
        assert(b.drop_last()[j] == b[j]);
        lemma_trim_end_concat(a, b.drop_last());
        assert(t.drop_last() =~= a + b.drop_last());
    } else {
        assert(b.last() == t.last());
        assert(trim_end_spec(t) == t);
        assert(trim_end_spec(b) == b);
    }
}

/// The line decomposition of `t`: fragments between newline characters,
/// except that a final newline does not open a further empty line.  Empty
/// text counts as a single empty line.
pub open spec fn lines_of(t: Seq<char>) -> Seq<Seq<char>> {
    let raw = split_on(t, seq!['\n']);
    if raw.len() > 1 && raw.last().len() == 0 {
        raw.drop_last()
    } else {
        raw
    }
}

/// A sequence of `n` newline characters.
pub open spec fn newlines(n: nat) -> Seq<char>
    decreases n,
{
    if n == 0 {
        Seq::empty()
    } else {
        newlines((n - 1) as nat) + seq!['\n']
    }
}

/// The views of the vectors in `s`, elementwise.
pub open spec fn views_of(s: Seq<Vec<char>>) -> Seq<Seq<char>> {
    Seq::new(s.len(), |i: int| s[i]@)
}

/// The deep view of a vector of character vectors is the sequence of the
/// elements' views.
pub proof fn lemma_deep_view_is_views(v: &Vec<Vec<char>>)
    ensures
        v.deep_view() == views_of(v@),
{
    assert forall|i: int| 0 <= i < v@.len() implies v@[i].deep_view() == v@[i]@ by {
        assert(v@[i].deep_view() =~= v@[i]@);
    }
    assert(v.deep_view() =~= views_of(v@));
}

/// Pushing a vector corresponds to pushing its view.
pub proof fn lemma_views_push(s: Seq<Vec<char>>, x: Vec<char>)
    ensures
        views_of(s.push(x)) == views_of(s).push(x@),
{
    assert(views_of(s.push(x)) =~= views_of(s).push(x@));
}

/// Compare `t[i..i+p.len()]` with `p`.
pub fn matches_at(t: &Vec<char>, p: &Vec<char>, i: usize) -> (r: bool)
    requires
        i + p@.len() <= t@.len(),
    ensures
        r == contains_at(t@, p@, i as int),
{
    let n = t.len();
    let m = p.len();
    let mut j: usize = 0;
    while j < m
        invariant
            m == p@.len(),
            n == t@.len(),
            i + m <= n,
            0 <= j <= m,
            forall|k: int| 0 <= k < j ==> t@[i + k] == p@[k],
        decreases m - j,
    {
        if t[i + j] != p[j] {
            assert(t@.subrange(i as int, i + p@.len() as int)[j as int] != p@[j as int]);
            return false;
        }
        j += 1;
    }
    assert(t@.subrange(i as int, i + p@.len() as int) =~= p@);
    true
}

/// Position of the leftmost occurrence of `p` in `t`, if any.
pub fn find_sub(t: &Vec<char>, p: &Vec<char>) -> (r: Option<usize>)
    ensures
        match r {
            Some(i) => contains_at(t@, p@, i as int) && forall|j: int|
                0 <= j < i ==> !contains_at(t@, p@, j),
            None => !contains_seq(t@, p@),
        },
{
    let n = t.len();
    let m = p.len();
    if m > n {
        assert(forall|i: int| !contains_at(t@, p@, i));
        return None;
    }
    if m == 0 {
        proof {
            assert(t@.subrange(0, 0) =~= p@);
        }
        return Some(0);
    }
    let mut i: usize = 0;
    while n - i >= m
        invariant
            n == t@.len(),
            m == p@.len(),
            1 <= m <= n,
            0 <= i <= n,
            forall|j: int| 0 <= j < i ==> !contains_at(t@, p@, j),
        decreases n - i,
    {
        if matches_at(t, p, i) {
            return Some(i);
        }
        i += 1;
    }
    assert(forall|j: int| j >= i ==> !contains_at(t@, p@, j));
    None
}

/// Whether `p` occurs in `t`.
pub fn contains_vec(t: &Vec<char>, p: &Vec<char>) -> (r: bool)
    ensures
        r == contains_seq(t@, p@),
{
    find_sub(t, p).is_some()
}

/// Copy of `t[a..b]`.
pub fn subvec(t: &Vec<char>, a: usize, b: usize) -> (r: Vec<char>)
    requires
        a <= b <= t@.len(),
    ensures
        r@ == t@.subrange(a as int, b as int),
{
    let mut out: Vec<char> = Vec::new();
    let mut i: usize = a;
    while i < b
        invariant
            a <= i <= b <= t@.len(),
            out@ =~= t@.subrange(a as int, i as int),
        decreases b - i,
    {
        out.push(t[i]);
        assert(out@ =~= t@.subrange(a as int, i + 1));
        i += 1;
    }
    out
}

/// Append a copy of `src` to `dst`.
pub fn append_vec(dst: &mut Vec<char>, src: &Vec<char>)
    ensures
        final(dst)@ == old(dst)@ + src@,
{
    let mut i: usize = 0;
    let n = src.len();
    while i < n
        invariant
            n == src@.len(),
            0 <= i <= n,
            dst@ =~= old(dst)@ + src@.subrange(0, i as int),
        decreases n - i,
    {
        dst.push(src[i]);
        assert(dst@ =~= old(dst)@ + src@.subrange(0, i + 1));
        i += 1;
    }
    assert(src@.subrange(0, n as int) =~= src@);
}

/// Replace every non-overlapping occurrence of `from` in `t` by `to`.
pub fn replace_all_vec(t: &Vec<char>, from: &Vec<char>, to: &Vec<char>) -> (r: Vec<char>)
    requires
        from@.len() >= 1,
    ensures
        r@ == replace_all(t@, from@, to@),
{
    let n = t.len();
    let flen = from.len();
    let mut out: Vec<char> = Vec::new();
    let mut i: usize = 0;
    while i < n
        invariant
            n == t@.len(),
            flen == from@.len(),
            flen >= 1,
            0 <= i <= n,
            out@ + replace_all_from(t@, from@, to@, i as int) == replace_all(t@, from@, to@),
        decreases n - i,
    {
        if n - i >= flen && matches_at(t, from, i) {
            let ghost prev = out@;
            append_vec(&mut out, to);
            assert(replace_all_from(t@, from@, to@, i as int) == to@ + replace_all_from(
                t@,
                from@,
                to@,
                i + flen,
            ));
            assert((prev + to@) + replace_all_from(t@, from@, to@, i + flen) =~= prev + (to@
                + replace_all_from(t@, from@, to@, i + flen)));
            i += flen;
        } else {
            let ghost prev = out@;
            out.push(t[i]);
            assert(replace_all_from(t@, from@, to@, i as int) == seq![t@[i as int]]
                + replace_all_from(t@, from@, to@, i + 1));
            assert(prev.push(t@[i as int]) =~= prev + seq![t@[i as int]]);
            assert((prev + seq![t@[i as int]]) + replace_all_from(t@, from@, to@, i + 1) =~= prev
                + (seq![t@[i as int]] + replace_all_from(t@, from@, to@, i + 1)));
            i += 1;
        }
    }
    assert(replace_all_from(t@, from@, to@, n as int) =~= Seq::<char>::empty());
    assert(out@ + Seq::<char>::empty() =~= out@);
    out
}

/// Split `t` on occurrences of `sep`, keeping empty fragments.
pub fn split_on_vec(t: &Vec<char>, sep: &Vec<char>) -> (r: Vec<Vec<char>>)
    requires
        sep@.len() >= 1,
    ensures
        r.deep_view() == split_on(t@, sep@),
{
    let n = t.len();
    let slen = sep.len();
    let mut out: Vec<Vec<char>> = Vec::new();
    let mut cur: Vec<char> = Vec::new();
    let mut i: usize = 0;
    proof {
        lemma_split_len(t@, sep@, 0);
        let s0 = split_on_from(t@, sep@, 0);
        assert(views_of(out@) =~= Seq::<Seq<char>>::empty());
        assert(cur@ + s0[0] =~= s0[0]);
        assert(views_of(out@) + seq![s0[0]] + s0.skip(1) =~= seq![s0[0]] + s0.skip(1));
        assert(seq![s0[0]] + s0.skip(1) =~= s0);
    }
    while i < n
        invariant
            n == t@.len(),
            slen == sep@.len(),
            slen >= 1,
            0 <= i <= n,
            split_on_from(t@, sep@, i as int).len() >= 1,
            split_on(t@, sep@) == views_of(out@) + seq![
                cur@ + split_on_from(t@, sep@, i as int)[0],
            ] + split_on_from(t@, sep@, i as int).skip(1),
        decreases n - i,
    {
        let ghost s_i = split_on_from(t@, sep@, i as int);
        if n - i >= slen && matches_at(t, sep, i) {
            let ghost s_next = split_on_from(t@, sep@, i + slen);
            proof {
                lemma_split_len(t@, sep@, i + slen);
                assert(s_i == seq![Seq::<char>::empty()] + s_next);
                assert(s_i[0] =~= Seq::<char>::empty());
                assert(s_i.skip(1) =~= s_next);
            }
            let ghost prev_out = out@;
            let ghost prev_cur = cur@;
            let done = cur;
            out.push(done);
            cur = Vec::new();
            proof {
                lemma_views_push(prev_out, out@.last());
                assert(out@ =~= prev_out.push(out@.last()));
                assert(views_of(out@) =~= views_of(prev_out).push(prev_cur));
                assert(prev_cur + s_i[0] =~= prev_cur);
                assert(s_next =~= seq![s_next[0]] + s_next.skip(1));
                assert(split_on(t@, sep@) == views_of(prev_out) + seq![prev_cur + s_i[0]]
                    + s_i.skip(1));
                assert(views_of(prev_out) + seq![prev_cur + s_i[0]] + s_i.skip(1) =~= views_of(
                    prev_out,
                ).push(prev_cur) + seq![Seq::<char>::empty() + s_next[0]] + s_next.skip(1));
                assert(Seq::<char>::empty() + s_next[0] =~= cur@ + split_on_from(
                    t@,
                    sep@,
                    i + slen,
                )[0]);
            }
            i += slen;
        } else {
            let ghost s_next = split_on_from(t@, sep@, i + 1);
            proof {
                lemma_split_len(t@, sep@, i + 1);
                assert(s_i == seq![seq![t@[i as int]] + s_next[0]] + s_next.skip(1));
                assert(s_i[0] == seq![t@[i as int]] + s_next[0]);
                assert(s_i.skip(1) =~= s_next.skip(1));
            }
            let ghost prev_cur = cur@;
            cur.push(t[i]);
            proof {
                assert(cur@ =~= prev_cur.push(t@[i as int]));
                assert(prev_cur + (seq![t@[i as int]] + s_next[0]) =~= prev_cur.push(t@[i as int])
                    + s_next[0]);
                assert(views_of(out@) + seq![prev_cur + s_i[0]] + s_i.skip(1) =~= views_of(out@)
                    + seq![cur@ + s_next[0]] + s_next.skip(1));
            }
            i += 1;
        }
    }
    let ghost s_end = split_on_from(t@, sep@, n as int);
    proof {
        assert(s_end =~= seq![Seq::<char>::empty()]);
        assert(s_end[0] =~= Seq::<char>::empty());
        assert(s_end.skip(1) =~= Seq::<Seq<char>>::empty());
        assert(cur@ + s_end[0] =~= cur@);
    }
    let ghost prev_out = out@;
    let ghost prev_cur = cur@;
    out.push(cur);
    proof {
        lemma_views_push(prev_out, out@.last());
        assert(out@ =~= prev_out.push(out@.last()));
        assert(views_of(out@) =~= views_of(prev_out).push(prev_cur));
        assert(views_of(prev_out) + seq![prev_cur] + Seq::<Seq<char>>::empty() =~= views_of(
            prev_out,
        ).push(prev_cur));
        lemma_deep_view_is_views(&out);
    }
    out
}

/// The line decomposition of `t` (see `lines_of`).
pub fn lines_vec(t: &Vec<char>) -> (r: Vec<Vec<char>>)
    ensures
        r.deep_view() == lines_of(t@),
{
    let sep: Vec<char> = vec!['\n'];
    assert(sep@ =~= seq!['\n']);
    let mut raw = split_on_vec(t, &sep);
    proof {
        lemma_split_len(t@, seq!['\n'], 0);
        lemma_deep_view_is_views(&raw);
    }
    let ghost full = views_of(raw@);
    if raw.len() > 1 && raw[raw.len() - 1].len() == 0 {
        proof {
            assert(full.last() == raw@[raw@.len() - 1]@);
            assert(full.last().len() == 0);
        }
        let ghost prev = raw@;
        raw.pop();
        proof {
            assert(raw@ =~= prev.drop_last());
            assert(views_of(raw@) =~= views_of(prev).drop_last());
            lemma_deep_view_is_views(&raw);
        }
    } else {
        proof {
            assert(full.len() > 1 ==> full.last() == raw@[raw@.len() - 1]@);
        }
    }
    raw
}

/// Whether `c` counts as whitespace for trailing-whitespace trimming.
pub fn is_ws(c: char) -> (r: bool)
    ensures
        r == is_wspace(c),
{
    c == ' ' || c == '\t' || c == '\n' || c == '\r'
}

/// `t` with trailing whitespace removed.
pub fn trim_end_vec(t: &Vec<char>) -> (r: Vec<char>)
    ensures
        r@ == trim_end_spec(t@),
{
    let mut e = t.len();
    proof {
        assert(t@.subrange(0, t@.len() as int) =~= t@);
    }
    while e > 0 && is_ws(t[e - 1])
        invariant
            0 <= e <= t@.len(),
            trim_end_spec(t@) == trim_end_spec(t@.subrange(0, e as int)),
        decreases e,
    {
        proof {
            let cur = t@.subrange(0, e as int);
            assert(cur.len() == e);
            assert(cur.last() == t@[e - 1]);
            assert(is_wspace(cur.last()));
            assert(cur.drop_last() =~= t@.subrange(0, e - 1));
        }
        e -= 1;
    }
    proof {
        let cur = t@.subrange(0, e as int);
        if e > 0 {
            assert(cur.last() == t@[e - 1]);
            assert(!is_wspace(cur.last()));
        }
        assert(trim_end_spec(cur) == cur);
    }
    subvec(t, 0, e)
}

/// Whether `p` is a prefix of `t`.
pub fn starts_with_vec(t: &Vec<char>, p: &Vec<char>) -> (r: bool)
    ensures
        r == starts_with(t@, p@),
{
    if p.len() > t.len() {
        return false;
    }
    matches_at(t, p, 0)
}

/// Whether two character vectors hold the same characters.
pub fn vec_eq(a: &Vec<char>, b: &Vec<char>) -> (r: bool)
    ensures
        r == (a@ == b@),
{
    if a.len() != b.len() {
        proof {
            if a@ == b@ {
                assert(a@.len() == b@.len());
            }
        }
        return false;
    }
    let r = matches_at(a, b, 0);
    proof {
        assert(a@.subrange(0, a@.len() as int) =~= a@);
    }
    r
}

/// Whether two strings hold the same characters.
pub fn str_eq(a: &str, b: &str) -> (r: bool)
    ensures
        r == (a@ == b@),
{
    let av = chars_of(a);
    let bv = chars_of(b);
    vec_eq(&av, &bv)
}

/// The index of the first occurrence of `c` in `t`, or `-1`.
pub open spec fn first_index_of(t: Seq<char>, c: char) -> int
    decreases t.len(),
{
    if t.len() == 0 {
        -1
    } else if t[0] == c {
        0
    } else {
        let r = first_index_of(t.skip(1), c);
        if r == -1 {
            -1
        } else {
            r + 1
        }
    }
}

/// The first-occurrence index is `-1` or a valid position.
pub proof fn lemma_first_index_bounds(t: Seq<char>, c: char)
    ensures
        -1 <= first_index_of(t, c) < t.len(),
    decreases t.len(),
{
    if t.len() > 0 && t[0] != c {
        lemma_first_index_bounds(t.skip(1), c);
    }
}

/// The index of the first occurrence of `c` in `t`, if any.
pub fn first_index_of_exec(t: &Vec<char>, c: char) -> (r: Option<usize>)
    ensures
        match r {
            Some(i) => first_index_of(t@, c) == i && i < t@.len(),
            None => first_index_of(t@, c) == -1,
        },
{
    let n = t.len();
    let mut i: usize = 0;
    proof {
        assert(t@.skip(0) =~= t@);
    }
    while i < n
        invariant
            n == t@.len(),
            0 <= i <= n,
            first_index_of(t@, c) == if first_index_of(t@.skip(i as int), c) == -1 {
                -1int
            } else {
                first_index_of(t@.skip(i as int), c) + i
            },
        decreases n - i,
    {
        proof {
            let rest = t@.skip(i as int);
            let rest2 = t@.skip(i + 1);
            lemma_first_index_bounds(rest2, c);
            assert(rest.len() > 0);
            assert(rest[0] == t@[i as int]);
            assert(rest.skip(1) =~= rest2);
            if t@[i as int] != c {
                assert(first_index_of(rest, c) == (if first_index_of(rest2, c) == -1 {
                    -1int
                } else {
                    first_index_of(rest2, c) + 1
                }));
            }
        }
        if t[i] == c {
            return Some(i);
        }
        i += 1;
    }
    proof {
        assert(t@.skip(n as int) =~= Seq::<char>::empty());
    }
    None
}

/// The index of the last occurrence of `c` in `t`, or `-1`.
pub open spec fn last_index_of(t: Seq<char>, c: char) -> int
    decreases t.len(),
{
    if t.len() == 0 {
        -1
    } else if t.last() == c {
        t.len() - 1
    } else {
        last_index_of(t.drop_last(), c)
    }
}

/// The index of the last occurrence of `c` in `t`, if any.
pub fn last_index_of_exec(t: &Vec<char>, c: char) -> (r: Option<usize>)
    ensures
        match r {
            Some(i) => last_index_of(t@, c) == i && i < t@.len(),
            None => last_index_of(t@, c) == -1,
        },
{
    let n = t.len();
    let mut best: Option<usize> = None;
    let mut i: usize = 0;
    proof {
        assert(t@.subrange(0, 0) =~= Seq::<char>::empty());
    }
    while i < n
        invariant
            n == t@.len(),
            0 <= i <= n,
            match best {
                Some(b) => last_index_of(t@.subrange(0, i as int), c) == b && b < i,
                None => last_index_of(t@.subrange(0, i as int), c) == -1,
            },
        decreases n - i,
    {
        proof {
            let ext = t@.subrange(0, i + 1);
            assert(ext.drop_last() =~= t@.subrange(0, i as int));
            assert(ext.last() == t@[i as int]);
        }
        if t[i] == c {
            best = Some(i);
        }
        i += 1;
    }
    proof {
        assert(t@.subrange(0, n as int) =~= t@);
    }
    best
}

/// The characters of `s`, in order.
pub fn chars_of(s: &str) -> (v: Vec<char>)
    ensures
        v@ == s@,
{
    let n = s.unicode_len();
    let mut v: Vec<char> = Vec::new();
    let mut i: usize = 0;
    while i < n
        invariant
            n == s@.len(),
            0 <= i <= n,
            v@ =~= s@.subrange(0, i as int),
        decreases n - i,
    {
        v.push(s.get_char(i));
        assert(v@ =~= s@.subrange(0, i + 1));
        i += 1;
    }
    assert(s@.subrange(0, n as int) =~= s@);
    v
}

/// Relies on `String::push`: appends the given character to the end of the
/// string.
#[verifier::external_body]
fn push_char(s: &mut String, c: char)
    ensures
        final(s)@ == old(s)@.push(c),
{
    s.push(c);
}

/// A `String` holding exactly the characters of `v`.
pub fn string_of(v: &Vec<char>) -> (s: String)
    ensures
        s@ == v@,
{
    let mut s = String::new();
    let n = v.len();
    let mut i: usize = 0;
    while i < n
        invariant
            n == v@.len(),
            0 <= i <= n,
            s@ =~= v@.subrange(0, i as int),
        decreases n - i,
    {
        push_char(&mut s, v[i]);
        assert(s@ =~= v@.subrange(0, i + 1));
        i += 1;
    }
    assert(v@.subrange(0, n as int) =~= v@);
    s
}

} // verus!
