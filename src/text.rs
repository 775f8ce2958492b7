//! Character-level helpers on text: splitting on a separator and trimming
//! whitespace, each with a specification over `Seq<char>`.
use vstd::prelude::*;

verus! {

/// `k` is the first position of `c` in `s`.
pub open spec fn first_at(s: Seq<char>, c: char, k: int) -> bool {
    0 <= k < s.len() && s[k] == c && forall|j: int| 0 <= j < k ==> s[j] != c
}

/// The first position of `c` in `s`, where there is one.
pub open spec fn first_index(s: Seq<char>, c: char) -> int {
    choose|k: int| first_at(s, c, k)
}

/// The pieces of `t` between occurrences of `sep`, empty pieces kept; the
/// empty text has one empty piece.
pub open spec fn split(t: Seq<char>, sep: char) -> Seq<Seq<char>>
    decreases t.len(),
{
    if t.len() == 0 {
        seq![Seq::<char>::empty()]
    } else {
        let rest = split(t.drop_last(), sep);
        if t.last() == sep {
            rest.push(Seq::<char>::empty())
        } else {
            rest.update(rest.len() - 1, rest.last().push(t.last()))
        }
    }
}


/// Whether `c` has the Unicode `White_Space` property, which is what
/// `char::is_whitespace` tests.
pub open spec fn is_space(c: char) -> bool {
    let n = c as u32;
    (9 <= n <= 13) || n == 32 || n == 0x85 || n == 0xa0 || n == 0x1680 || (0x2000 <= n
        <= 0x200a) || n == 0x2028 || n == 0x2029 || n == 0x202f || n == 0x205f || n == 0x3000
}

/// Tests `c` for whitespace.
pub fn space(c: char) -> (r: bool)
    ensures
        r == is_space(c),
{
    let n = c as u32;
    (9 <= n && n <= 13) || n == 32 || n == 0x85 || n == 0xa0 || n == 0x1680 || (0x2000 <= n && n
        <= 0x200a) || n == 0x2028 || n == 0x2029 || n == 0x202f || n == 0x205f || n == 0x3000
}

/// `s` without its leading whitespace.
pub open spec fn trim_start(s: Seq<char>) -> Seq<char>
    decreases s.len(),
{
    if s.len() > 0 && is_space(s[0]) {
        trim_start(s.drop_first())
    } else {
        s
    }
}

/// `s` without its trailing whitespace.
pub open spec fn trim_end(s: Seq<char>) -> Seq<char>
    decreases s.len(),
{
    if s.len() > 0 && is_space(s.last()) {
        trim_end(s.drop_last())
    } else {
        s
    }
}

/// `s` without leading or trailing whitespace.
pub open spec fn trim(s: Seq<char>) -> Seq<char> {
    trim_end(trim_start(s))
}

/// The bounds, inside `lo..hi`, of the characters of `t` in that range
/// without leading or trailing whitespace.
pub fn trim_bounds(t: &str, lo: usize, hi: usize) -> (r: (usize, usize))
    requires
        lo <= hi <= t@.len(),
    ensures
        lo <= r.0 <= r.1 <= hi,
        t@.subrange(r.0 as int, r.1 as int) == trim(t@.subrange(lo as int, hi as int)),
{
    let mut a: usize = lo;
    while a < hi && space(t.get_char(a))
        invariant
            lo <= a <= hi <= t@.len(),
            trim_start(t@.subrange(lo as int, hi as int)) == trim_start(
                t@.subrange(a as int, hi as int),
            ),
        decreases hi - a,
    {
        assert(t@.subrange(a as int, hi as int).drop_first() =~= t@.subrange(
            a as int + 1,
            hi as int,
        ));
        a = a + 1;
    }
    let mut b: usize = hi;
    while b > a && space(t.get_char(b - 1))
        invariant
            lo <= a <= b <= hi <= t@.len(),
            trim_start(t@.subrange(lo as int, hi as int)) == t@.subrange(a as int, hi as int),
            trim(t@.subrange(lo as int, hi as int)) == trim_end(t@.subrange(a as int, b as int)),
        decreases b - a,
    {
        assert(t@.subrange(a as int, b as int).drop_last() =~= t@.subrange(
            a as int,
            b as int - 1,
        ));
        b = b - 1;
    }
    (a, b)
}

/// Whether `s` and `t` hold the same characters.
pub fn same_text(s: &str, t: &str) -> (r: bool)
    ensures
        r == (s@ == t@),
{
    let n = s.unicode_len();
    if n != t.unicode_len() {
        return false;
    }
    let mut i: usize = 0;
    while i < n
        invariant
            n == s@.len() == t@.len(),
            i <= n,
            forall|j: int| 0 <= j < i ==> s@[j] == t@[j],
        decreases n - i,
    {
        if s.get_char(i) != t.get_char(i) {
            return false;
        }
        i = i + 1;
    }
    assert(s@ =~= t@);
    true
}

/// Splits the characters of `t` in `lo..hi` on `sep`.
pub fn split_range(t: &str, lo: usize, hi: usize, sep: char) -> (r: Vec<String>)
    requires
        lo <= hi <= t@.len(),
    ensures
        r@.map_values(|p: String| p@) == split(t@.subrange(lo as int, hi as int), sep),
{
    let mut pieces: Vec<String> = Vec::new();
    let mut start: usize = lo;
    let mut i: usize = lo;
    assert(t@.subrange(lo as int, lo as int) =~= Seq::<char>::empty());
    assert(pieces@.map_values(|p: String| p@).push(t@.subrange(start as int, i as int))
        =~= seq![Seq::<char>::empty()]);
    while i < hi
        invariant
            lo <= start <= i <= hi <= t@.len(),
            split(t@.subrange(lo as int, i as int), sep) == pieces@.map_values(|p: String| p@).push(
                t@.subrange(start as int, i as int),
            ),
        decreases hi - i,
    {
        let c = t.get_char(i);
        let ghost before = t@.subrange(lo as int, i as int);
        assert(t@.subrange(lo as int, i as int + 1).drop_last() =~= before);
        if c == sep {
            let piece = t.substring_char(start, i).to_owned();
            let ghost old_pieces = pieces@;
            pieces.push(piece);
            let ghost piece_text = t@.subrange(start as int, i as int);
            assert(pieces@.map_values(|p: String| p@) =~= old_pieces.map_values(
                |p: String| p@,
            ).push(piece_text));
            start = i + 1;
            i = i + 1;
            assert(t@.subrange(start as int, i as int) =~= Seq::<char>::empty());
        } else {
            let ghost cur = t@.subrange(start as int, i as int);
            assert(t@.subrange(start as int, i as int + 1) =~= cur.push(c));
            i = i + 1;
            let ghost lhs = split(t@.subrange(lo as int, i as int), sep);
            let ghost done = pieces@.map_values(|p: String| p@);
            assert(lhs =~= done.push(t@.subrange(start as int, i as int)));
        }
    }
    let last = t.substring_char(start, hi).to_owned();
    let ghost old_pieces = pieces@;
    pieces.push(last);
    assert(pieces@.map_values(|p: String| p@) =~= old_pieces.map_values(|p: String| p@).push(
        t@.subrange(start as int, hi as int),
    ));
    pieces
}


/// The pieces joined with `sep` between each two.
pub open spec fn join(parts: Seq<Seq<char>>, sep: char) -> Seq<char>
    decreases parts.len(),
{
    if parts.len() == 0 {
        Seq::empty()
    } else if parts.len() == 1 {
        parts[0]
    } else {
        join(parts.drop_last(), sep).push(sep) + parts.last()
    }
}

/// Appends the items of `parts`, with `sep` between each two.
pub(crate) fn join_into(out: &mut String, parts: &Vec<String>, sep: &str, Ghost(c): Ghost<char>)
    requires
        sep@ == seq![c],
    ensures
        final(out)@ == old(out)@ + join(parts@.map_values(|p: String| p@), c),
{
    let ghost start = out@;
    let n = parts.len();
    let mut i: usize = 0;
    while i < n
        invariant
            n == parts@.len(),
            i <= n,
            sep@ == seq![c],
            out@ == start + join(parts@.take(i as int).map_values(|p: String| p@), c),
        decreases n - i,
    {
        let ghost prev = parts@.take(i as int).map_values(|p: String| p@);
        let ghost next = parts@.take(i as int + 1).map_values(|p: String| p@);
        assert(next.drop_last() =~= prev);
        if i > 0 {
            out.append(sep);
        }
        out.append(parts[i].as_str());
        proof {
            if i == 0 {
                assert(prev =~= Seq::<Seq<char>>::empty());
                assert(out@ =~= start + next[0]);
            } else {
                assert(out@ =~= start + (join(prev, c).push(c) + next.last()));
            }
        }
        i = i + 1;
    }
    assert(parts@.take(n as int) =~= parts@);
}


/// Whether `c` does not occur in `s`.
pub open spec fn free_of(s: Seq<char>, c: char) -> bool {
    forall|i: int| 0 <= i < s.len() ==> s[i] != c
}

/// Whether `s` ends in a whitespace character.
pub open spec fn ends_in_space(s: Seq<char>) -> bool {
    s.len() > 0 && is_space(s.last())
}

/// A split has at least one piece.
pub proof fn lemma_split_nonempty(t: Seq<char>, sep: char)
    ensures
        split(t, sep).len() >= 1,
    decreases t.len(),
{
    if t.len() > 0 {
        lemma_split_nonempty(t.drop_last(), sep);
    }
}

/// Appending text free of the separator extends the last piece.
pub proof fn lemma_split_append(t: Seq<char>, l: Seq<char>, sep: char)
    requires
        free_of(l, sep),
    ensures
        split(t + l, sep) == split(t, sep).update(
            split(t, sep).len() - 1,
            split(t, sep).last() + l,
        ),
    decreases l.len(),
{
    lemma_split_nonempty(t, sep);
    let s = split(t, sep);
    if l.len() == 0 {
        assert(t + l =~= t);
        assert(s.last() + l =~= s.last());
        assert(s.update(s.len() - 1, s.last()) =~= s);
    } else {
        let l2 = l.drop_last();
        assert(free_of(l2, sep));
        lemma_split_append(t, l2, sep);
        assert((t + l).drop_last() =~= t + l2);
        assert((t + l).last() == l.last());
        assert(l[l.len() - 1] != sep);
        let s2 = split(t + l2, sep);
        assert(s2.last() =~= s.last() + l2);
        assert((s.last() + l2).push(l.last()) =~= s.last() + l);
        assert(split(t + l, sep) =~= s.update(s.len() - 1, s.last() + l));
    }
}

/// Text free of the separator is a single piece.
pub proof fn lemma_split_single(l: Seq<char>, sep: char)
    requires
        free_of(l, sep),
    ensures
        split(l, sep) == seq![l],
{
    lemma_split_append(Seq::empty(), l, sep);
    assert(Seq::<char>::empty() + l =~= l);
    assert(seq![Seq::<char>::empty()].update(0, Seq::<char>::empty() + l) =~= seq![l]);
}

/// Splitting at a separator concatenates the splits of both sides.
pub proof fn lemma_split_concat(a: Seq<char>, b: Seq<char>, sep: char)
    ensures
        split(a.push(sep) + b, sep) == split(a, sep) + split(b, sep),
    decreases b.len(),
{
    if b.len() == 0 {
        assert(a.push(sep) + b =~= a.push(sep));
        assert(a.push(sep).drop_last() =~= a);
        assert(split(a, sep).push(Seq::<char>::empty()) =~= split(a, sep) + seq![
            Seq::<char>::empty(),
        ]);
    } else {
        let b2 = b.drop_last();
        lemma_split_concat(a, b2, sep);
        lemma_split_nonempty(b2, sep);
        assert((a.push(sep) + b).drop_last() =~= a.push(sep) + b2);
        assert((a.push(sep) + b).last() == b.last());
        let sa = split(a, sep);
        let sb = split(b2, sep);
        if b.last() == sep {
            assert((sa + sb).push(Seq::<char>::empty()) =~= sa + sb.push(Seq::<char>::empty()));
        } else {
            assert((sa + sb).update((sa + sb).len() - 1, (sa + sb).last().push(b.last())) =~= sa
                + sb.update(sb.len() - 1, sb.last().push(b.last())));
        }
    }
}

/// Joining one more piece in front.
pub proof fn lemma_join_prepend(p: Seq<char>, parts: Seq<Seq<char>>, sep: char)
    requires
        parts.len() > 0,
    ensures
        join(seq![p] + parts, sep) == p.push(sep) + join(parts, sep),
    decreases parts.len(),
{
    let all = seq![p] + parts;
    assert(all.drop_last() =~= seq![p] + parts.drop_last());
    assert(all.last() == parts.last());
    assert(join(all, sep) == join(all.drop_last(), sep).push(sep) + all.last());
    if parts.len() == 1 {
        assert(seq![p] + parts.drop_last() =~= seq![p]);
        assert(join(seq![p], sep) == p);
        assert(join(parts, sep) == parts[0]);
        assert(parts[0] == parts.last());
    } else {
        lemma_join_prepend(p, parts.drop_last(), sep);
        assert((p.push(sep) + join(parts.drop_last(), sep)).push(sep) + parts.last() =~= p.push(
            sep,
        ) + (join(parts.drop_last(), sep).push(sep) + parts.last()));
    }
}

/// Splitting a join gives the pieces back, where none holds the separator.
pub proof fn lemma_split_join(parts: Seq<Seq<char>>, sep: char)
    requires
        parts.len() > 0,
        forall|i: int| 0 <= i < parts.len() ==> free_of(#[trigger] parts[i], sep),
    ensures
        split(join(parts, sep), sep) == parts,
    decreases parts.len(),
{
    if parts.len() == 1 {
        lemma_split_single(parts[0], sep);
        assert(seq![parts[0]] =~= parts);
    } else {
        let init = parts.drop_last();
        assert(forall|i: int| 0 <= i < init.len() ==> init[i] == parts[i]);
        lemma_split_join(init, sep);
        let j = join(init, sep);
        assert(free_of(parts.last(), sep)) by {
            assert(parts.last() == parts[parts.len() - 1]);
        }
        lemma_split_append(j.push(sep), parts.last(), sep);
        assert(j.push(sep).drop_last() =~= j);
        assert(init.push(Seq::<char>::empty()).update(init.len() as int, Seq::<char>::empty()
            + parts.last()) =~= parts);
    }
}

/// Joining pieces free of `c` with a separator other than `c` is free of `c`.
pub proof fn lemma_join_free(parts: Seq<Seq<char>>, sep: char, c: char)
    requires
        sep != c,
        forall|i: int| 0 <= i < parts.len() ==> free_of(#[trigger] parts[i], c),
    ensures
        free_of(join(parts, sep), c),
    decreases parts.len(),
{
    if parts.len() == 1 {
        assert(free_of(parts[0], c));
    } else if parts.len() > 1 {
        let init = parts.drop_last();
        assert(forall|i: int| 0 <= i < init.len() ==> init[i] == parts[i]);
        lemma_join_free(init, sep, c);
        assert(free_of(parts.last(), c)) by {
            assert(parts.last() == parts[parts.len() - 1]);
        }
        let j = join(init, sep).push(sep) + parts.last();
        assert forall|i: int| 0 <= i < j.len() implies j[i] != c by {
            if i < join(init, sep).len() + 1 {
                if i < join(init, sep).len() {
                    assert(j[i] == join(init, sep)[i]);
                }
            } else {
                assert(j[i] == parts.last()[i - join(init, sep).len() - 1]);
            }
        }
    }
}

/// A text that starts and ends with non-whitespace is its own trim.
pub proof fn lemma_trim_id(l: Seq<char>)
    requires
        l.len() > 0,
        !is_space(l[0]),
        !is_space(l.last()),
    ensures
        trim(l) == l,
{
    assert(trim_start(l) == l);
    assert(trim_end(l) == l);
}

} // verus!
