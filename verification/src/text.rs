//! Text and byte strings: trimming, splitting, joining, comparing.

use vstd::prelude::*;

verus! {

broadcast use vstd::string::group_string_axioms;

/// A code point with the Unicode property `White_Space`.
pub open spec fn is_white_space(c: char) -> bool {
    ||| '\u{9}' <= c <= '\u{d}'
    ||| c == '\u{20}'
    ||| c == '\u{85}'
    ||| c == '\u{a0}'
    ||| c == '\u{1680}'
    ||| '\u{2000}' <= c <= '\u{200a}'
    ||| c == '\u{2028}'
    ||| c == '\u{2029}'
    ||| c == '\u{202f}'
    ||| c == '\u{205f}'
    ||| c == '\u{3000}'
}

/// `s` without the white space it starts with.
pub open spec fn trimmed_start(s: Seq<char>) -> Seq<char>
    decreases s.len(),
{
    if s.len() > 0 && is_white_space(s[0]) {
        trimmed_start(s.skip(1))
    } else {
        s
    }
}

/// `s` without the white space it ends with.
pub open spec fn trimmed_end(s: Seq<char>) -> Seq<char>
    decreases s.len(),
{
    if s.len() > 0 && is_white_space(s.last()) {
        trimmed_end(s.drop_last())
    } else {
        s
    }
}

/// `s` without white space at either end.
pub open spec fn trimmed(s: Seq<char>) -> Seq<char> {
    trimmed_end(trimmed_start(s))
}

/// `s` with `pat` taken off its front as often as `s` starts with it.
pub open spec fn without_prefixes(s: Seq<char>, pat: Seq<char>) -> Seq<char>
    decreases s.len(),
{
    if pat.len() > 0 && pat.is_prefix_of(s) {
        without_prefixes(s.skip(pat.len() as int), pat)
    } else {
        s
    }
}

/// `s` with `pat` taken off its back as often as `s` ends with it.
pub open spec fn without_suffixes(s: Seq<char>, pat: Seq<char>) -> Seq<char>
    decreases s.len(),
{
    if pat.len() > 0 && pat.is_suffix_of(s) {
        without_suffixes(s.take(s.len() - pat.len()), pat)
    } else {
        s
    }
}

/// The pieces of `s` between occurrences of `sep`, first to last; one piece more than there
/// are occurrences.
pub open spec fn pieces<A>(s: Seq<A>, sep: A) -> Seq<Seq<A>>
    decreases s.len(),
{
    if s.len() == 0 {
        seq![Seq::empty()]
    } else {
        let before = pieces(s.drop_last(), sep);
        if s.last() == sep {
            before.push(Seq::empty())
        } else {
            before.drop_last().push(before.last().push(s.last()))
        }
    }
}

/// The parts in order, with `sep` between each two neighbours.
pub open spec fn joined<A>(parts: Seq<Seq<A>>, sep: Seq<A>) -> Seq<A>
    decreases parts.len(),
{
    if parts.len() == 0 {
        Seq::empty()
    } else if parts.len() == 1 {
        parts[0]
    } else {
        joined(parts.drop_last(), sep) + sep + parts.last()
    }
}

/// The position of the first `x` in `s`, or the length of `s` where there is none.
pub open spec fn first_position<A>(s: Seq<A>, x: A) -> int
    decreases s.len(),
{
    if s.len() == 0 || s[0] == x {
        0
    } else {
        1 + first_position(s.skip(1), x)
    }
}

/// The texts that the strings hold.
pub open spec fn views(strings: Seq<String>) -> Seq<Seq<char>> {
    strings.map_values(|s: String| s@)
}

/// The text that an optional string holds.
pub open spec fn option_view(string: Option<String>) -> Option<Seq<char>> {
    match string {
        Some(s) => Some(s@),
        None => None,
    }
}

/// The bytes that the byte strings hold.
pub open spec fn byte_views(strings: Seq<Vec<u8>>) -> Seq<Seq<u8>> {
    strings.map_values(|s: Vec<u8>| s@)
}

/// Strings and byte strings are taken one for one, each with all that it holds.
pub proof fn law_views(strings: Seq<String>, bytes: Seq<Vec<u8>>, string: Option<String>, i: int)
    ensures
        views(strings).len() == strings.len(),
        0 <= i < strings.len() ==> views(strings)[i] == strings[i]@,
        byte_views(bytes).len() == bytes.len(),
        0 <= i < bytes.len() ==> byte_views(bytes)[i] == bytes[i]@,
        string is None <==> option_view(string) is None,
        string matches Some(s) ==> option_view(string) == Some(s@),
{
}

/// `a` stands before `b`, or equals it, where elements are compared from the front.
pub open spec fn ordered(a: Seq<u8>, b: Seq<u8>) -> bool
    decreases a.len(),
{
    if a.len() == 0 {
        true
    } else if b.len() == 0 {
        false
    } else if a[0] == b[0] {
        ordered(a.skip(1), b.skip(1))
    } else {
        a[0] < b[0]
    }
}

/// Splitting loses nothing: the pieces joined by the separator are the whole again, and no
/// piece holds the separator.
pub proof fn law_pieces_join<A>(s: Seq<A>, sep: A)
    ensures
        pieces(s, sep).len() >= 1,
        joined(pieces(s, sep), seq![sep]) == s,
        forall|i: int| 0 <= i < pieces(s, sep).len() ==> !#[trigger] pieces(s, sep)[i].contains(sep),
    decreases s.len(),
{
    if s.len() == 0 {
        assert(pieces(s, sep)[0] =~= s);
    } else {
        let before = pieces(s.drop_last(), sep);
        law_pieces_join(s.drop_last(), sep);
        let all = pieces(s, sep);
        if s.last() == sep {
            assert(all.drop_last() =~= before);
            assert(s =~= s.drop_last() + seq![sep]);
            assert(joined(all, seq![sep]) =~= joined(before, seq![sep]) + seq![sep]);
        } else {
            assert(all.drop_last() =~= before.drop_last());
            assert(s =~= s.drop_last().push(s.last()));
            assert(joined(all, seq![sep]) =~= joined(before, seq![sep]).push(s.last()));
            assert forall|i: int| 0 <= i < all.len() implies !#[trigger] all[i].contains(sep) by {
                if i == all.len() - 1 {
                    assert(!before[i].contains(sep));
                    assert forall|j: int| 0 <= j < all[i].len() implies all[i][j] != sep by {
                        if j < before[i].len() {
                            assert(before[i].contains(before[i][j]));
                        }
                    }
                } else {
                    assert(all[i] == before[i]);
                }
            }
        }
    }
}

/// What is put behind the last separator goes to the last piece.
pub proof fn lemma_pieces_append<A>(s: Seq<A>, more: Seq<A>, sep: A)
    requires
        !more.contains(sep),
    ensures
        pieces(s, sep).len() >= 1,
        pieces(s + more, sep) == pieces(s, sep).drop_last().push(pieces(s, sep).last() + more),
    decreases more.len(),
{
    law_pieces_join(s, sep);
    let before = pieces(s, sep);
    if more.len() == 0 {
        assert(s + more =~= s);
        assert(before.last() + more =~= before.last());
        assert(before =~= before.drop_last().push(before.last()));
    } else {
        let less = more.drop_last();
        assert forall|i: int| 0 <= i < less.len() implies less[i] != sep by {
            assert(more.contains(more[i]));
        }
        lemma_pieces_append(s, less, sep);
        let known = pieces(s + less, sep);
        assert(more.contains(more.last()));
        assert((s + more).drop_last() =~= s + less);
        assert((s + more).last() == more.last());
        assert(known.drop_last() =~= before.drop_last());
        assert((before.last() + less).push(more.last()) =~= before.last() + more);
    }
}

/// A separator parts what stands before it from what stands behind it.
pub proof fn law_pieces_concat<A>(front: Seq<A>, back: Seq<A>, sep: A)
    requires
        front.len() == 0 || front.last() == sep,
    ensures
        pieces(front, sep).len() >= 1,
        pieces(front, sep).last().len() == 0,
        pieces(front + back, sep) == pieces(front, sep).drop_last() + pieces(back, sep),
    decreases back.len(),
{
    law_pieces_join(front, sep);
    law_pieces_join(back, sep);
    let head = pieces(front, sep).drop_last();
    let whole = front + back;
    if back.len() == 0 {
        assert(whole =~= front);
        assert(pieces(front, sep).last() =~= Seq::<A>::empty());
        assert(pieces(front, sep) =~= head + pieces(back, sep));
    } else {
        let less = back.drop_last();
        law_pieces_concat(front, less, sep);
        law_pieces_join(less, sep);
        assert(whole.drop_last() =~= front + less);
        assert(whole.last() == back.last());
        assert(pieces(whole, sep) =~= head + pieces(back, sep));
    }
}

/// Joining loses nothing: where no part holds the separator, the parts come back as the pieces
/// of the whole.
pub proof fn law_joined_pieces<A>(parts: Seq<Seq<A>>, sep: A)
    requires
        parts.len() >= 1,
        forall|i: int| 0 <= i < parts.len() ==> !#[trigger] parts[i].contains(sep),
    ensures
        pieces(joined(parts, seq![sep]), sep) == parts,
    decreases parts.len(),
{
    let last = parts.last();
    assert(!parts[parts.len() - 1].contains(sep));
    if parts.len() == 1 {
        lemma_pieces_append(Seq::empty(), last, sep);
        assert(Seq::empty() + last =~= last);
        assert(pieces(last, sep) =~= parts);
    } else {
        let front = parts.drop_last();
        assert forall|i: int| 0 <= i < front.len() implies !#[trigger] front[i].contains(sep) by {
            assert(front[i] == parts[i]);
        }
        law_joined_pieces(front, sep);
        let ended = joined(front, seq![sep]) + seq![sep];
        assert(ended.drop_last() =~= joined(front, seq![sep]));
        assert(pieces(ended, sep) == front.push(Seq::empty()));
        lemma_pieces_append(ended, last, sep);
        assert(pieces(ended, sep).drop_last() =~= front);
        assert(Seq::empty() + last =~= last);
        assert(front.push(last) =~= parts);
    }
}

/// The position of the first `x` in a sequence that is cut there.
pub proof fn lemma_first_position<A>(front: Seq<A>, x: A, back: Seq<A>)
    requires
        !front.contains(x),
    ensures
        first_position(front + seq![x] + back, x) == front.len(),
    decreases front.len(),
{
    let whole = front + seq![x] + back;
    if front.len() > 0 {
        let rest = front.skip(1);
        assert(front.contains(front[0]));
        assert forall|i: int| 0 <= i < rest.len() implies rest[i] != x by {
            assert(front.contains(front[i + 1]));
        }
        lemma_first_position(rest, x, back);
        assert(whole.skip(1) =~= rest + seq![x] + back);
    }
}

/// White space alone.
pub open spec fn is_blank(s: Seq<char>) -> bool {
    forall|i: int| 0 <= i < s.len() ==> is_white_space(#[trigger] s[i])
}

/// Trimming takes off the white space at the ends and nothing else.
pub proof fn law_trimmed(front: Seq<char>, core: Seq<char>, back: Seq<char>)
    requires
        is_blank(front),
        is_blank(back),
        core.len() > 0,
        !is_white_space(core[0]),
        !is_white_space(core.last()),
    ensures
        trimmed(front + core + back) == core,
    decreases front.len() + back.len(),
{
    let whole = front + core + back;
    if front.len() > 0 {
        assert(is_white_space(front[0]));
        assert(whole.skip(1) =~= front.skip(1) + core + back);
        law_trimmed(front.skip(1), core, back);
    } else {
        assert(whole =~= core + back);
        assert(trimmed_start(whole) == whole);
        if back.len() > 0 {
            assert(is_white_space(back.last()));
            assert(whole.drop_last() =~= front + core + back.drop_last());
            law_trimmed(front, core, back.drop_last());
            assert(trimmed_start(whole.drop_last()) == whole.drop_last());
        } else {
            assert(whole =~= core);
        }
    }
}

/// Trimming splits a text into white space, what is left, and white space; what is left is
/// empty, or has no white space at its ends.
pub proof fn law_trimmed_splits(s: Seq<char>)
    ensures
        exists|front: Seq<char>, back: Seq<char>| #[trigger]
            is_blank(front) && #[trigger] is_blank(back) && s == front + trimmed(s) + back,
        trimmed(s).len() > 0 ==> !is_white_space(trimmed(s)[0]) && !is_white_space(
            trimmed(s).last(),
        ),
{
    let rest = trimmed_start(s);
    let front = lemma_trimmed_start(s);
    let back = lemma_trimmed_end(rest);
    assert(is_blank(front) && is_blank(back));
    assert(s =~= front + trimmed(s) + back);
    if trimmed(s).len() > 0 {
        assert(trimmed(s)[0] == rest[0]);
    }
}

proof fn lemma_trimmed_start(s: Seq<char>) -> (front: Seq<char>)
    ensures
        is_blank(front),
        s == front + trimmed_start(s),
        trimmed_start(s).len() > 0 ==> !is_white_space(trimmed_start(s)[0]),
    decreases s.len(),
{
    if s.len() > 0 && is_white_space(s[0]) {
        let inner = lemma_trimmed_start(s.skip(1));
        let front = seq![s[0]] + inner;
        assert(s =~= seq![s[0]] + s.skip(1));
        assert(s =~= front + trimmed_start(s));
        front
    } else {
        assert(s =~= Seq::<char>::empty() + s);
        Seq::empty()
    }
}

proof fn lemma_trimmed_end(s: Seq<char>) -> (back: Seq<char>)
    ensures
        is_blank(back),
        s == trimmed_end(s) + back,
        trimmed_end(s).len() > 0 ==> !is_white_space(trimmed_end(s).last()),
    decreases s.len(),
{
    if s.len() > 0 && is_white_space(s.last()) {
        let inner = lemma_trimmed_end(s.drop_last());
        let back = inner.push(s.last());
        assert(s =~= s.drop_last().push(s.last()));
        assert(s =~= trimmed_end(s) + back);
        back
    } else {
        assert(s =~= s + Seq::<char>::empty());
        Seq::empty()
    }
}

/// `pat`, `n` times in a row.
pub open spec fn repeated(pat: Seq<char>, n: nat) -> Seq<char>
    decreases n,
{
    if n == 0 {
        Seq::empty()
    } else {
        pat + repeated(pat, (n - 1) as nat)
    }
}

/// One more repetition can stand at either end.
pub proof fn lemma_repeated(pat: Seq<char>, n: nat)
    ensures
        repeated(pat, n + 1) == pat + repeated(pat, n),
        repeated(pat, n + 1) == repeated(pat, n) + pat,
    decreases n,
{
    if n == 0 {
        reveal_with_fuel(repeated, 2);
        assert(repeated(pat, 1) =~= pat);
        assert(repeated(pat, 0) + pat =~= pat);
    } else {
        lemma_repeated(pat, (n - 1) as nat);
        assert(pat + (repeated(pat, (n - 1) as nat) + pat) =~= (pat + repeated(
            pat,
            (n - 1) as nat,
        )) + pat);
    }
}

/// What stands behind any number of prefixes is what is left without them.
pub proof fn law_without_prefixes(pat: Seq<char>, n: nat, rest: Seq<char>)
    requires
        pat.len() > 0,
        !pat.is_prefix_of(rest),
    ensures
        without_prefixes(repeated(pat, n) + rest, pat) == rest,
    decreases n,
{
    let whole = repeated(pat, n) + rest;
    if n == 0 {
        assert(whole =~= rest);
    } else {
        let less = repeated(pat, (n - 1) as nat) + rest;
        law_without_prefixes(pat, (n - 1) as nat, rest);
        assert(whole =~= pat + less);
        assert(whole.take(pat.len() as int) =~= pat);
        assert(pat.is_prefix_of(whole));
        assert(whole.skip(pat.len() as int) =~= less);
    }
}

/// What stands before any number of suffixes is what is left without them.
pub proof fn law_without_suffixes(rest: Seq<char>, pat: Seq<char>, n: nat)
    requires
        pat.len() > 0,
        !pat.is_suffix_of(rest),
    ensures
        without_suffixes(rest + repeated(pat, n), pat) == rest,
    decreases n,
{
    let whole = rest + repeated(pat, n);
    if n == 0 {
        assert(whole =~= rest);
    } else {
        let less = rest + repeated(pat, (n - 1) as nat);
        law_without_suffixes(rest, pat, (n - 1) as nat);
        lemma_repeated(pat, (n - 1) as nat);
        assert(whole =~= less + pat);
        assert(whole.skip(whole.len() - pat.len()) =~= pat);
        assert(pat.is_suffix_of(whole));
        assert(whole.take(whole.len() - pat.len()) =~= less);
    }
}

/// Only repetitions of the prefix are taken off, and none is left.
pub proof fn law_prefixes_taken_off(s: Seq<char>, pat: Seq<char>)
    requires
        pat.len() > 0,
    ensures
        exists|n: nat| s == #[trigger] repeated(pat, n) + without_prefixes(s, pat),
        !pat.is_prefix_of(without_prefixes(s, pat)),
{
    let n = lemma_prefixes_taken_off(s, pat);
    assert(s == repeated(pat, n) + without_prefixes(s, pat));
}

/// How often the prefix is taken off.
pub proof fn lemma_prefixes_taken_off(s: Seq<char>, pat: Seq<char>) -> (n: nat)
    requires
        pat.len() > 0,
    ensures
        s == repeated(pat, n) + without_prefixes(s, pat),
        pat.is_prefix_of(s) ==> n > 0,
        !pat.is_prefix_of(without_prefixes(s, pat)),
    decreases s.len(),
{
    if pat.is_prefix_of(s) {
        let less = s.skip(pat.len() as int);
        let n = lemma_prefixes_taken_off(less, pat);
        assert(s =~= pat + less);
        assert(s =~= repeated(pat, n + 1) + without_prefixes(s, pat));
        n + 1
    } else {
        assert(s =~= repeated(pat, 0) + s);
        0
    }
}

/// Only repetitions of the suffix are taken off, and none is left.
pub proof fn law_suffixes_taken_off(s: Seq<char>, pat: Seq<char>)
    requires
        pat.len() > 0,
    ensures
        exists|n: nat| s == without_suffixes(s, pat) + #[trigger] repeated(pat, n),
        !pat.is_suffix_of(without_suffixes(s, pat)),
{
    let n = lemma_suffixes_taken_off(s, pat);
    assert(s == without_suffixes(s, pat) + repeated(pat, n));
}

/// How often the suffix is taken off.
pub proof fn lemma_suffixes_taken_off(s: Seq<char>, pat: Seq<char>) -> (n: nat)
    requires
        pat.len() > 0,
    ensures
        s == without_suffixes(s, pat) + repeated(pat, n),
        pat.is_suffix_of(s) ==> n > 0,
        !pat.is_suffix_of(without_suffixes(s, pat)),
    decreases s.len(),
{
    if pat.is_suffix_of(s) {
        let less = s.take(s.len() - pat.len());
        let n = lemma_suffixes_taken_off(less, pat);
        lemma_repeated(pat, n);
        assert(s =~= less + pat);
        assert(s =~= without_suffixes(s, pat) + repeated(pat, n + 1));
        n + 1
    } else {
        assert(s =~= s + repeated(pat, 0));
        0
    }
}

/// The first position of an element: it stands there and nowhere before; where it does not
/// occur, the position is behind the end.
pub proof fn law_first_position<A>(s: Seq<A>, x: A)
    ensures
        0 <= first_position(s, x) <= s.len(),
        first_position(s, x) < s.len() ==> s[first_position(s, x)] == x,
        forall|i: int| 0 <= i < first_position(s, x) ==> #[trigger] s[i] != x,
    decreases s.len(),
{
    if s.len() > 0 && s[0] != x {
        let rest = s.skip(1);
        law_first_position(rest, x);
        assert forall|i: int| 0 <= i < first_position(s, x) implies #[trigger] s[i] != x by {
            if i > 0 {
                assert(rest[i - 1] == s[i]);
            }
        }
    }
}

/// Byte strings are ordered as words in a dictionary: the first difference decides, and where
/// there is none, the one that ends first comes first.
pub proof fn law_ordered(a: Seq<u8>, b: Seq<u8>)
    ensures
        ordered(a, b) <==> a.is_prefix_of(b) || exists|i: int|
            0 <= i < a.len() && i < b.len() && a[i] < b[i] && #[trigger] a.take(i) == b.take(i),
    decreases a.len(),
{
    if a.len() == 0 {
        assert(b.take(0) =~= a);
    } else if b.len() > 0 && a[0] == b[0] {
        let (x, y) = (a.skip(1), b.skip(1));
        law_ordered(x, y);
        if a.is_prefix_of(b) {
            assert(x =~= y.take(x.len() as int));
        }
        if x.is_prefix_of(y) {
            assert(a =~= b.take(a.len() as int)) by {
                assert forall|i: int| 0 <= i < a.len() implies a[i] == b[i] by {
                    if i > 0 {
                        assert(x[i - 1] == y.take(x.len() as int)[i - 1]);
                    }
                }
            }
        }
        if exists|i: int|
            0 <= i < x.len() && i < y.len() && x[i] < y[i] && #[trigger] x.take(i) == y.take(i) {
            let i = choose|i: int|
                0 <= i < x.len() && i < y.len() && x[i] < y[i] && #[trigger] x.take(i) == y.take(i);
            assert(a.take(i + 1) =~= b.take(i + 1)) by {
                assert forall|j: int| 0 <= j < i + 1 implies a[j] == b[j] by {
                    if j > 0 {
                        assert(x.take(i)[j - 1] == y.take(i)[j - 1]);
                    }
                }
            }
        }
        if exists|i: int|
            0 <= i < a.len() && i < b.len() && a[i] < b[i] && #[trigger] a.take(i) == b.take(i) {
            let i = choose|i: int|
                0 <= i < a.len() && i < b.len() && a[i] < b[i] && #[trigger] a.take(i) == b.take(i);
            assert(x.take(i - 1) =~= y.take(i - 1)) by {
                assert forall|j: int| 0 <= j < i - 1 implies x[j] == y[j] by {
                    assert(a.take(i)[j + 1] == b.take(i)[j + 1]);
                }
            }
        }
    } else if b.len() > 0 {
        assert(a.take(0) =~= b.take(0));
        if a.is_prefix_of(b) {
            assert(b.take(a.len() as int)[0] == b[0]);
        }
        if exists|i: int|
            0 <= i < a.len() && i < b.len() && a[i] < b[i] && #[trigger] a.take(i) == b.take(i) {
            let i = choose|i: int|
                0 <= i < a.len() && i < b.len() && a[i] < b[i] && #[trigger] a.take(i) == b.take(i);
            if i > 0 {
                assert(a.take(i)[0] == b.take(i)[0]);
            }
        }
    }
}

/// Joining two lists of parts, and putting the separator between, joins them all; one part
/// stands for itself.
pub proof fn law_joined_concat<A>(front: Seq<Seq<A>>, back: Seq<Seq<A>>, sep: Seq<A>)
    requires
        front.len() > 0,
        back.len() > 0,
    ensures
        joined(front + back, sep) == joined(front, sep) + sep + joined(back, sep),
        front.len() == 1 ==> joined(front, sep) == front[0],
        back.len() == 1 ==> joined(back, sep) == back[0],
    decreases back.len(),
{
    let whole = front + back;
    if back.len() == 1 {
        assert(whole.drop_last() =~= front);
    } else {
        law_joined_concat(front, back.drop_last(), sep);
        assert(whole.drop_last() =~= front + back.drop_last());
        assert(joined(whole, sep) =~= joined(front, sep) + sep + joined(back, sep));
    }
}

/// Joined parts start as the first and end as the last of them.
pub proof fn lemma_joined_ends<A>(parts: Seq<Seq<A>>, sep: Seq<A>)
    requires
        parts.len() > 0,
        parts[0].len() > 0,
        parts.last().len() > 0,
    ensures
        joined(parts, sep).len() > 0,
        joined(parts, sep)[0] == parts[0][0],
        joined(parts, sep).last() == parts.last().last(),
{
    if parts.len() > 1 {
        let front = seq![parts[0]];
        let back = parts.skip(1);
        assert(parts =~= front + back);
        law_joined_concat(front, back, sep);
        let most = parts.drop_last();
        let end = seq![parts.last()];
        assert(parts =~= most + end);
        law_joined_concat(most, end, sep);
    }
}

/// A filter that every element passes leaves all of them.
pub proof fn lemma_filter_all<A>(s: Seq<A>, keep: spec_fn(A) -> bool)
    requires
        forall|i: int| 0 <= i < s.len() ==> #[trigger] keep(s[i]),
    ensures
        s.filter(keep) == s,
    decreases s.len(),
{
    reveal(Seq::filter);
    if s.len() > 0 {
        let front = s.drop_last();
        assert forall|i: int| 0 <= i < front.len() implies #[trigger] keep(front[i]) by {
            assert(keep(s[i]));
        }
        lemma_filter_all(front, keep);
        assert(keep(s[s.len() - 1]));
        assert(s =~= front.push(s.last()));
    }
}

/// The encoding of two texts in a row is their encodings in a row.
pub proof fn lemma_encoding_concat(a: Seq<char>, b: Seq<char>)
    ensures
        vstd::utf8::encode_utf8(a + b) == vstd::utf8::encode_utf8(a) + vstd::utf8::encode_utf8(b),
    decreases a.len(),
{
    if a.len() == 0 {
        assert(a + b =~= b);
        assert(vstd::utf8::encode_utf8(a) + vstd::utf8::encode_utf8(b) =~= vstd::utf8::encode_utf8(b));
    } else {
        lemma_encoding_concat(a.drop_first(), b);
        assert((a + b).drop_first() =~= a.drop_first() + b);
        assert(vstd::utf8::encode_utf8(a + b) =~= vstd::utf8::encode_utf8(a)
            + vstd::utf8::encode_utf8(b));
    }
}

/// A character beyond ASCII is encoded in bytes beyond ASCII.
proof fn lemma_wide_scalar(scalar: u32)
    requires
        scalar >= 0x80,
    ensures
        forall|i: int|
            0 <= i < vstd::utf8::encode_scalar(scalar).len() ==> #[trigger] vstd::utf8::encode_scalar(
                scalar,
            )[i] >= 0x80,
{
    assert(vstd::utf8::leading_byte_width_2(scalar) >= 0x80) by (bit_vector);
    assert(vstd::utf8::leading_byte_width_3(scalar) >= 0x80) by (bit_vector);
    assert(vstd::utf8::leading_byte_width_4(scalar) >= 0x80) by (bit_vector);
    assert(vstd::utf8::last_continuation_byte(scalar) >= 0x80) by (bit_vector);
    assert(vstd::utf8::second_last_continuation_byte(scalar) >= 0x80) by (bit_vector);
    assert(vstd::utf8::third_last_continuation_byte(scalar) >= 0x80) by (bit_vector);
}

/// A character is its code point.
proof fn lemma_char_value(c: char)
    ensures
        (c as u32) as int == c as int,
{
}

/// An ASCII character that a text does not hold does not occur in its encoding either.
pub proof fn lemma_encoding_lacks(s: Seq<char>, c: char)
    requires
        c < '\u{80}',
        !s.contains(c),
    ensures
        !vstd::utf8::encode_utf8(s).contains(c as u8),
    decreases s.len(),
{
    if s.len() > 0 {
        let rest = s.drop_first();
        let first = s[0] as u32;
        assert(s.contains(s[0]));
        assert forall|i: int| 0 <= i < rest.len() implies rest[i] != c by {
            assert(s.contains(s[i + 1]));
        }
        lemma_encoding_lacks(rest, c);
        let head = vstd::utf8::encode_scalar(first);
        let tail = vstd::utf8::encode_utf8(rest);
        if first >= 0x80 {
            lemma_wide_scalar(first);
        } else {
            assert(vstd::utf8::leading_byte_width_1(first) == first) by (bit_vector)
                requires
                    first < 0x80,
            ;
        }
        lemma_char_value(s[0]);
        assert forall|i: int| 0 <= i < (head + tail).len() implies (head + tail)[i] != c as u8 by {
            if i >= head.len() {
                assert(tail.contains(tail[i - head.len()]));
            } else if first < 0x80 {
                assert(vstd::utf8::has_width_1_encoding(first));
                assert(head[i] == vstd::utf8::leading_byte_width_1(first));
            } else {
                assert(head[i] >= 0x80);
            }
        }
    }
}

/// An ASCII byte parts what is valid UTF-8 before it from what is behind it.
pub proof fn lemma_valid_around(front: Seq<u8>, sep: u8, back: Seq<u8>)
    requires
        sep < 0x80,
    ensures
        vstd::utf8::valid_utf8(front + seq![sep] + back) <==> vstd::utf8::valid_utf8(front)
            && vstd::utf8::valid_utf8(back),
{
    let whole = front + seq![sep] + back;
    let rest = seq![sep] + back;
    vstd::utf8::utf8_byte_ranges_bitwise(sep);
    let first = vstd::utf8::codepoint_width_1(sep);
    assert(first < 0x80) by (bit_vector)
        requires
            first == (sep & 0x7F) as u32,
    ;
    assert(vstd::utf8::valid_first_scalar(rest));
    assert(vstd::utf8::pop_first_scalar(rest) =~= back);
    assert(vstd::utf8::valid_utf8(rest) <==> vstd::utf8::valid_utf8(back));
    assert(whole =~= front + rest);
    if vstd::utf8::valid_utf8(whole) {
        let at = front.len() as int;
        assert(whole[at] == sep);
        vstd::utf8::is_char_boundary_iff_not_is_continuation_byte(whole, at);
        vstd::utf8::valid_utf8_split(whole, at);
        assert(whole.subrange(0, at) =~= front);
        assert(whole.subrange(at, whole.len() as int) =~= rest);
    }
    if vstd::utf8::valid_utf8(front) && vstd::utf8::valid_utf8(rest) {
        vstd::utf8::valid_utf8_concat(front, rest);
    }
}

/// Parts joined by an ASCII byte are valid UTF-8 exactly where each of them is.
pub proof fn lemma_valid_joined(parts: Seq<Seq<u8>>, sep: u8)
    requires
        sep < 0x80,
        parts.len() > 0,
    ensures
        vstd::utf8::valid_utf8(joined(parts, seq![sep])) <==> forall|i: int|
            0 <= i < parts.len() ==> vstd::utf8::valid_utf8(#[trigger] parts[i]),
    decreases parts.len(),
{
    let last = parts.len() - 1;
    if last > 0 {
        let front = parts.drop_last();
        lemma_valid_joined(front, sep);
        lemma_valid_around(joined(front, seq![sep]), sep, parts.last());
        if vstd::utf8::valid_utf8(joined(parts, seq![sep])) {
            assert forall|i: int| 0 <= i < parts.len() implies vstd::utf8::valid_utf8(
                #[trigger] parts[i],
            ) by {
                if i < last {
                    assert(front[i] == parts[i]);
                }
            }
        }
        if forall|i: int| 0 <= i < parts.len() ==> vstd::utf8::valid_utf8(#[trigger] parts[i]) {
            assert forall|i: int| 0 <= i < front.len() implies vstd::utf8::valid_utf8(
                #[trigger] front[i],
            ) by {
                assert(front[i] == parts[i]);
            }
            assert(vstd::utf8::valid_utf8(parts[last]));
        }
    } else {
        assert(parts[0] == joined(parts, seq![sep]));
    }
}

/// The encoding of joined parts is the encodings of the parts, joined.
pub proof fn lemma_encoding_joined(parts: Seq<Seq<char>>, sep: Seq<char>)
    ensures
        vstd::utf8::encode_utf8(joined(parts, sep)) == joined(
            parts.map_values(|part: Seq<char>| vstd::utf8::encode_utf8(part)),
            vstd::utf8::encode_utf8(sep),
        ),
    decreases parts.len(),
{
    let encoded = parts.map_values(|part: Seq<char>| vstd::utf8::encode_utf8(part));
    if parts.len() > 1 {
        let front = parts.drop_last();
        lemma_encoding_joined(front, sep);
        assert(encoded.drop_last() =~= front.map_values(
            |part: Seq<char>| vstd::utf8::encode_utf8(part),
        ));
        lemma_encoding_concat(joined(front, sep) + sep, parts.last());
        lemma_encoding_concat(joined(front, sep), sep);
    }
}

/// Text is determined by its UTF-8 bytes.
pub proof fn lemma_encoding_injective(a: Seq<char>, b: Seq<char>)
    requires
        vstd::utf8::encode_utf8(a) == vstd::utf8::encode_utf8(b),
    ensures
        a == b,
{
    vstd::utf8::encode_utf8_decode_utf8(a);
    vstd::utf8::encode_utf8_decode_utf8(b);
}

/// Of two byte strings, one stands before the other or equals it.
pub proof fn lemma_ordered_total(a: Seq<u8>, b: Seq<u8>)
    ensures
        ordered(a, b) || ordered(b, a),
    decreases a.len(),
{
    if a.len() > 0 && b.len() > 0 && a[0] == b[0] {
        lemma_ordered_total(a.skip(1), b.skip(1));
    }
}

/// Two byte strings of which each stands before the other or equals it are equal.
pub proof fn lemma_ordered_antisymmetric(a: Seq<u8>, b: Seq<u8>)
    requires
        ordered(a, b),
        ordered(b, a),
    ensures
        a == b,
    decreases a.len(),
{
    if a.len() > 0 && b.len() > 0 {
        lemma_ordered_antisymmetric(a.skip(1), b.skip(1));
        assert forall|i: int| 0 <= i < a.len() implies a[i] == b[i] by {
            if i > 0 {
                assert(a.skip(1)[i - 1] == b.skip(1)[i - 1]);
            }
        }
        assert(a.skip(1).len() == b.skip(1).len());
    }
    assert(a =~= b);
}

/// The order of byte strings carries over from pair to pair.
pub proof fn lemma_ordered_transitive(a: Seq<u8>, b: Seq<u8>, c: Seq<u8>)
    requires
        ordered(a, b),
        ordered(b, c),
    ensures
        ordered(a, c),
    decreases a.len(),
{
    if a.len() > 0 && b.len() > 0 && c.len() > 0 && a[0] == b[0] && b[0] == c[0] {
        lemma_ordered_transitive(a.skip(1), b.skip(1), c.skip(1));
    }
}

/// Decides whether two byte strings are equal.
pub fn same_bytes(a: &[u8], b: &[u8]) -> (same: bool)
    ensures
        same == (a@ == b@),
{
    if a.len() != b.len() {
        return false;
    }
    let mut i: usize = 0;
    while i < a.len()
        invariant
            i <= a@.len() == b@.len(),
            forall|j: int| 0 <= j < i ==> a@[j] == b@[j],
        decreases a@.len() - i,
    {
        if a[i] != b[i] {
            return false;
        }
        i = i + 1;
    }
    assert(a@ =~= b@);
    true
}

/// Decides whether two texts are equal.
pub fn same_text(a: &str, b: &str) -> (same: bool)
    ensures
        same == (a@ == b@),
{
    let same = same_bytes(a.as_bytes(), b.as_bytes());
    proof {
        if same {
            lemma_encoding_injective(a@, b@);
        }
    }
    same
}

/// The characters of a text.
pub fn chars_of(s: &str) -> (chars: Vec<char>)
    ensures
        chars@ == s@,
{
    let mut chars: Vec<char> = Vec::new();
    for c in it: s.chars()
        invariant
            chars@ == s@.take(it.index()),
            it.seq() == s@,
    {
        chars.push(c);
    }
    assert(s@.take(s@.len() as int) =~= s@);
    chars
}

/// Decides whether `c` is white space.
pub fn white_space(c: char) -> (yes: bool)
    ensures
        yes == is_white_space(c),
{
    ('\u{9}' <= c && c <= '\u{d}') || c == '\u{20}' || c == '\u{85}' || c == '\u{a0}'
        || c == '\u{1680}' || ('\u{2000}' <= c && c <= '\u{200a}') || c == '\u{2028}'
        || c == '\u{2029}' || c == '\u{202f}' || c == '\u{205f}' || c == '\u{3000}'
}

/// The text without white space at either end.
#[verifier::spinoff_prover]
pub fn trim<'a>(s: &'a str) -> (rest: &'a str)
    ensures
        rest@ == trimmed(s@),
{
    let chars = chars_of(s);
    let mut from: usize = 0;
    assert(s@.skip(0) =~= s@);
    while from < chars.len() && white_space(chars[from])
        invariant
            chars@ == s@,
            from <= s@.len(),
            trimmed_start(s@.skip(from as int)) == trimmed_start(s@),
        decreases s@.len() - from,
    {
        assert(s@.skip(from as int).skip(1) =~= s@.skip(from + 1));
        from = from + 1;
    }
    let ghost tail = s@.skip(from as int);
    assert(trimmed_start(s@) == tail);
    let mut to: usize = chars.len();
    assert(tail.take(to - from) =~= tail);
    while from < to && white_space(chars[to - 1])
        invariant
            chars@ == s@,
            from <= to <= s@.len(),
            tail == s@.skip(from as int),
            trimmed_end(tail.take(to - from)) == trimmed_end(tail),
        decreases to,
    {
        assert(tail.take(to - from).drop_last() =~= tail.take(to - from - 1));
        to = to - 1;
    }
    assert(tail.take(to - from) =~= s@.subrange(from as int, to as int));
    s.substring_char(from, to)
}

/// Decides whether `s` starts with `pat`.
pub fn starts_with(s: &str, pat: &str) -> (yes: bool)
    ensures
        yes == pat@.is_prefix_of(s@),
{
    let n: usize = pat.unicode_len();
    if n > s.unicode_len() {
        return false;
    }
    same_text(s.substring_char(0, n), pat)
}

/// Decides whether `s` ends with `pat`.
pub fn ends_with(s: &str, pat: &str) -> (yes: bool)
    ensures
        yes == pat@.is_suffix_of(s@),
{
    let n: usize = pat.unicode_len();
    let m: usize = s.unicode_len();
    if n > m {
        return false;
    }
    same_text(s.substring_char(m - n, m), pat)
}

/// `s` with `pat` taken off its front as often as it stands there.
pub fn trim_start_matches<'a>(s: &'a str, pat: &str) -> (rest: &'a str)
    ensures
        rest@ == without_prefixes(s@, pat@),
{
    let n: usize = pat.unicode_len();
    let mut rest: &'a str = s;
    while n > 0 && starts_with(rest, pat)
        invariant
            n == pat@.len(),
            without_prefixes(rest@, pat@) == without_prefixes(s@, pat@),
        decreases rest@.len(),
    {
        let m: usize = rest.unicode_len();
        assert(rest@.subrange(n as int, m as int) =~= rest@.skip(n as int));
        rest = rest.substring_char(n, m);
    }
    rest
}

/// `s` with `pat` taken off its back as often as it stands there.
pub fn trim_end_matches<'a>(s: &'a str, pat: &str) -> (rest: &'a str)
    ensures
        rest@ == without_suffixes(s@, pat@),
{
    let n: usize = pat.unicode_len();
    let mut rest: &'a str = s;
    while n > 0 && ends_with(rest, pat)
        invariant
            n == pat@.len(),
            without_suffixes(rest@, pat@) == without_suffixes(s@, pat@),
        decreases rest@.len(),
    {
        let m: usize = rest.unicode_len();
        assert(rest@.subrange(0, m - n) =~= rest@.take(m - n));
        rest = rest.substring_char(0, m - n);
    }
    rest
}

/// What stands before and after the first `sep`, where there is one.
pub fn split_once<'a>(s: &'a str, sep: char) -> (parts: Option<(&'a str, &'a str)>)
    ensures
        match parts {
            Some((before, after)) => {
                &&& first_position(s@, sep) < s@.len()
                &&& before@ == s@.take(first_position(s@, sep))
                &&& after@ == s@.skip(first_position(s@, sep) + 1)
            },
            None => first_position(s@, sep) == s@.len(),
        },
{
    let chars = chars_of(s);
    let mut i: usize = 0;
    assert(s@.skip(0) =~= s@);
    while i < chars.len() && chars[i] != sep
        invariant
            chars@ == s@,
            i <= s@.len(),
            first_position(s@, sep) == i + first_position(s@.skip(i as int), sep),
        decreases s@.len() - i,
    {
        assert(s@.skip(i as int).skip(1) =~= s@.skip(i + 1));
        i = i + 1;
    }
    if i < chars.len() {
        assert(s@.subrange(0, i as int) =~= s@.take(i as int));
        assert(s@.subrange(i + 1, s@.len() as int) =~= s@.skip(i + 1));
        Some((s.substring_char(0, i), s.substring_char(i + 1, chars.len())))
    } else {
        None
    }
}

/// The pieces of a text between occurrences of `sep`.
pub fn split(s: &str, sep: char) -> (parts: Vec<String>)
    ensures
        views(parts@) == pieces(s@, sep),
{
    let chars = chars_of(s);
    let mut parts: Vec<String> = Vec::new();
    let mut from: usize = 0;
    let mut i: usize = 0;
    assert(s@.subrange(0, 0) =~= Seq::<char>::empty());
    assert(views(parts@).push(s@.subrange(0, 0)) =~= pieces(s@.take(0), sep));
    while i < chars.len()
        invariant
            chars@ == s@,
            from <= i <= s@.len(),
            views(parts@).push(s@.subrange(from as int, i as int)) == pieces(s@.take(i as int), sep),
        decreases s@.len() - i,
    {
        let ghost done = views(parts@);
        assert(s@.take(i + 1).drop_last() =~= s@.take(i as int));
        if chars[i] == sep {
            parts.push(s.substring_char(from, i).to_owned());
            assert(views(parts@) =~= done.push(s@.subrange(from as int, i as int)));
            from = i + 1;
            assert(s@.subrange(from as int, i + 1) =~= Seq::<char>::empty());
        } else {
            assert(done.push(s@.subrange(from as int, i as int)).drop_last() =~= done);
            assert(s@.subrange(from as int, i + 1) =~= s@.subrange(from as int, i as int).push(
                s@[i as int],
            ));
        }
        i = i + 1;
    }
    assert(s@.take(i as int) =~= s@);
    let ghost done = views(parts@);
    parts.push(s.substring_char(from, i).to_owned());
    assert(views(parts@) =~= done.push(s@.subrange(from as int, i as int)));
    parts
}

/// The pieces of a byte string between occurrences of `sep`.
pub fn split_bytes(s: &[u8], sep: u8) -> (parts: Vec<Vec<u8>>)
    ensures
        byte_views(parts@) == pieces(s@, sep),
{
    let mut parts: Vec<Vec<u8>> = Vec::new();
    let mut part: Vec<u8> = Vec::new();
    let mut i: usize = 0;
    assert(byte_views(parts@).push(part@) =~= pieces(s@.take(0), sep));
    while i < s.len()
        invariant
            i <= s@.len(),
            byte_views(parts@).push(part@) == pieces(s@.take(i as int), sep),
        decreases s@.len() - i,
    {
        let ghost done = byte_views(parts@);
        assert(s@.take(i + 1).drop_last() =~= s@.take(i as int));
        assert(done.push(part@).drop_last() =~= done);
        if s[i] == sep {
            let ghost piece = part@;
            parts.push(part);
            assert(byte_views(parts@) =~= done.push(piece));
            part = Vec::new();
        } else {
            part.push(s[i]);
        }
        i = i + 1;
    }
    assert(s@.take(i as int) =~= s@);
    let ghost done = byte_views(parts@);
    let ghost piece = part@;
    parts.push(part);
    assert(byte_views(parts@) =~= done.push(piece));
    parts
}

/// One text behind the other.
pub fn concat(a: &str, b: &str) -> (whole: String)
    ensures
        whole@ == a@ + b@,
{
    let mut whole: String = a.to_owned();
    whole.append(b);
    whole
}

/// The texts in order, with `sep` between each two neighbours.
pub fn join(parts: &Vec<String>, sep: &str) -> (whole: String)
    ensures
        whole@ == joined(views(parts@), sep@),
{
    let mut whole: String = String::new();
    let mut i: usize = 0;
    while i < parts.len()
        invariant
            i <= parts@.len(),
            whole@ == joined(views(parts@).take(i as int), sep@),
        decreases parts@.len() - i,
    {
        assert(views(parts@).take(i + 1).drop_last() =~= views(parts@).take(i as int));
        if i > 0 {
            whole.append(sep);
        }
        whole.append(parts[i].as_str());
        assert(whole@ =~= joined(views(parts@).take(i + 1), sep@));
        i = i + 1;
    }
    assert(views(parts@).take(i as int) =~= views(parts@));
    whole
}

/// A copy of a list of strings.
pub fn copy_all(strings: &Vec<String>) -> (res: Vec<String>)
    ensures
        views(res@) == views(strings@),
{
    let mut res: Vec<String> = Vec::new();
    let mut i: usize = 0;
    while i < strings.len()
        invariant
            i <= strings@.len(),
            res@.len() == i,
            forall|j: int| 0 <= j < i ==> #[trigger] res@[j]@ == strings@[j]@,
        decreases strings@.len() - i,
    {
        res.push(strings[i].clone());
        i = i + 1;
    }
    assert(views(res@) =~= views(strings@));
    res
}

/// Decides whether one of the strings holds `text`.
pub fn contains(strings: &Vec<String>, text: &str) -> (found: bool)
    ensures
        found == views(strings@).contains(text@),
{
    let mut i: usize = 0;
    while i < strings.len()
        invariant
            i <= strings@.len(),
            forall|j: int| 0 <= j < i ==> strings@[j]@ != text@,
        decreases strings@.len() - i,
    {
        if same_text(strings[i].as_str(), text) {
            assert(views(strings@)[i as int] == text@);
            return true;
        }
        i = i + 1;
    }
    proof {
        if views(strings@).contains(text@) {
            let j = choose|j: int| 0 <= j < views(strings@).len() && views(strings@)[j] == text@;
            assert(strings@[j]@ == text@);
        }
    }
    false
}

/// Decides whether the bytes of `a` stand before those of `b`, or equal them.
pub fn not_after(a: &[u8], b: &[u8]) -> (yes: bool)
    ensures
        yes == ordered(a@, b@),
{
    let mut i: usize = 0;
    assert(a@.skip(0) =~= a@);
    assert(b@.skip(0) =~= b@);
    while i < a.len() && i < b.len() && a[i] == b[i]
        invariant
            i <= a@.len(),
            i <= b@.len(),
            ordered(a@, b@) == ordered(a@.skip(i as int), b@.skip(i as int)),
        decreases a@.len() - i,
    {
        assert(a@.skip(i as int).skip(1) =~= a@.skip(i + 1));
        assert(b@.skip(i as int).skip(1) =~= b@.skip(i + 1));
        i = i + 1;
    }
    if i == a.len() {
        true
    } else if i == b.len() {
        false
    } else {
        a[i] < b[i]
    }
}

} // verus!
