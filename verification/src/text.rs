//! Conversions between strings and sequences of characters, and the small
//! string predicates that the rest of the library is stated over.

use vstd::prelude::*;
use vstd::multiset::Multiset;

verus! {

/// Appends one character to a string.
///
/// Trusted: `String::push` adds exactly the given character at the end and
/// leaves the characters before it untouched.
#[verifier::external_body]
pub(crate) fn push_char(s: &mut String, c: char)
    ensures
        final(s)@ == old(s)@.push(c),
{
    s.push(c)
}

/// The characters of `s`, in order.
pub fn to_chars(s: &str) -> (v: Vec<char>)
    ensures
        v@ == s@,
{
    let mut v: Vec<char> = Vec::new();
    let it = s.chars();
    for c in iter: it
        invariant
            v@ == iter.seq().take(iter.index()),
            iter.seq() == s@,
    {
        v.push(c);
    }
    v
}

/// The string made of the characters of `v`, in order.
pub fn from_chars(v: &Vec<char>) -> (s: String)
    ensures
        s@ == v@,
{
    let mut s = String::new();
    let mut i: usize = 0;
    while i < v.len()
        invariant
            i <= v.len(),
            s@ == v@.take(i as int),
        decreases v.len() - i,
    {
        push_char(&mut s, v[i]);
        i += 1;
        assert(v@.take(i as int) == v@.take(i - 1).push(v@[i - 1]));
    }
    assert(v@.take(v.len() as int) == v@);
    s
}

/// The string made of the characters of `v` from index `from` up to, not
/// including, index `to`.
pub fn slice_to_string(v: &Vec<char>, from: usize, to: usize) -> (s: String)
    requires
        from <= to <= v.len(),
    ensures
        s@ == v@.subrange(from as int, to as int),
{
    let mut s = String::new();
    let mut i: usize = from;
    while i < to
        invariant
            from <= i <= to <= v.len(),
            s@ == v@.subrange(from as int, i as int),
        decreases to - i,
    {
        push_char(&mut s, v[i]);
        i += 1;
        assert(v@.subrange(from as int, i as int) == v@.subrange(from as int, i - 1).push(v@[i - 1]));
    }
    s
}

/// The character sequences that the strings of `v` hold.
pub open spec fn strings(v: Seq<String>) -> Seq<Seq<char>> {
    v.map_values(|s: String| s@)
}

/// Whether `c` is white space: a space, one of the control characters from
/// tab to carriage return, or one of the other separators that Unicode
/// lists as white space.
pub open spec fn is_space(c: char) -> bool {
    let n = c as u32;
    n == 0x20 || (0x09 <= n && n <= 0x0d) || n == 0x85 || n == 0xa0 || n == 0x1680 || (0x2000 <= n && n
        <= 0x200a) || n == 0x2028 || n == 0x2029 || n == 0x202f || n == 0x205f || n == 0x3000
}

/// Whether `c` is white space.
pub fn is_whitespace(c: char) -> (b: bool)
    ensures
        b == is_space(c),
{
    let n = c as u32;
    n == 0x20 || (0x09 <= n && n <= 0x0d) || n == 0x85 || n == 0xa0 || n == 0x1680 || (0x2000 <= n && n
        <= 0x200a) || n == 0x2028 || n == 0x2029 || n == 0x202f || n == 0x205f || n == 0x3000
}

/// Whether `v` holds the character `c`.
pub fn chars_hold(v: &Vec<char>, c: char) -> (b: bool)
    ensures
        b == v@.contains(c),
{
    let mut i: usize = 0;
    while i < v.len()
        invariant
            i <= v.len(),
            forall|k: int| 0 <= k < i ==> v@[k] != c,
        decreases v.len() - i,
    {
        if v[i] == c {
            return true;
        }
        i += 1;
    }
    false
}

/// Whether `s` begins with the characters of `prefix`.
pub fn chars_start_with(s: &Vec<char>, prefix: &Vec<char>) -> (b: bool)
    ensures
        b == prefix@.is_prefix_of(s@),
{
    if prefix.len() > s.len() {
        return false;
    }
    let mut i: usize = 0;
    while i < prefix.len()
        invariant
            i <= prefix.len() <= s.len(),
            prefix@.take(i as int) == s@.take(i as int),
        decreases prefix.len() - i,
    {
        if prefix[i] != s[i] {
            assert(prefix@[i as int] != s@.subrange(0, prefix@.len() as int)[i as int]);
            return false;
        }
        i += 1;
        assert(prefix@.take(i as int) =~= prefix@.take(i - 1).push(prefix@[i - 1]));
        assert(s@.take(i as int) =~= s@.take(i - 1).push(s@[i - 1]));
    }
    assert(prefix@ =~= prefix@.take(prefix@.len() as int));
    assert(s@.take(prefix@.len() as int) =~= s@.subrange(0, prefix@.len() as int));
    true
}

/// The test that holds of the strings that begin with `prefix`.
pub open spec fn prefixed_by(prefix: Seq<char>) -> spec_fn(Seq<char>) -> bool {
    |s: Seq<char>| prefix.is_prefix_of(s)
}

/// The strings of `v` that begin with `prefix`, in the order of `v`.
pub fn keep_prefixed(v: &Vec<String>, prefix: &str) -> (r: Vec<String>)
    ensures
        strings(r@) == strings(v@).filter(prefixed_by(prefix@)),
{
    let p = to_chars(prefix);
    let mut r: Vec<String> = Vec::new();
    let mut i: usize = 0;
    proof {
        reveal(Seq::filter);
        assert(strings(v@).take(0) =~= Seq::<Seq<char>>::empty());
        assert(strings(r@) =~= Seq::<Seq<char>>::empty());
    }
    while i < v.len()
        invariant
            i <= v.len(),
            p@ == prefix@,
            strings(r@) == strings(v@).take(i as int).filter(prefixed_by(prefix@)),
        decreases v.len() - i,
    {
        let chars = to_chars(v[i].as_str());
        let ghost had = r@;
        if chars_start_with(&chars, &p) {
            r.push(v[i].clone());
        }
        proof {
            reveal(Seq::filter);
            let done = strings(v@).take(i + 1);
            assert(done.drop_last() =~= strings(v@).take(i as int));
            assert(done.last() == v[i as int]@);
            if prefix@.is_prefix_of(v[i as int]@) {
                assert(strings(r@) =~= strings(had).push(v[i as int]@));
            }
        }
        i += 1;
    }
    assert(strings(v@).take(v.len() as int) =~= strings(v@));
    r
}

/// The pieces into which the occurrences of `sep` cut `s`. There is one
/// piece more than there are occurrences, and a piece is empty where two
/// occurrences meet or one stands at an end.
pub open spec fn split_seq(s: Seq<char>, sep: char) -> Seq<Seq<char>>
    decreases s.len(),
{
    if s.len() == 0 {
        seq![Seq::empty()]
    } else {
        let before = split_seq(s.drop_last(), sep);
        if s.last() == sep {
            before.push(Seq::empty())
        } else {
            before.drop_last().push(before.last().push(s.last()))
        }
    }
}

/// The pieces, put together again with `sep` between each two.
pub open spec fn joined(pieces: Seq<Seq<char>>, sep: char) -> Seq<char>
    decreases pieces.len(),
{
    if pieces.len() == 0 {
        Seq::empty()
    } else if pieces.len() == 1 {
        pieces[0]
    } else {
        joined(pieces.drop_last(), sep).push(sep) + pieces.last()
    }
}

/// Cutting loses nothing and leaves no separator: there is at least one
/// piece, no piece holds `sep`, and the pieces put together again with
/// `sep` between them are `s`.
pub proof fn lemma_split_joins(s: Seq<char>, sep: char)
    ensures
        split_seq(s, sep).len() >= 1,
        forall|i: int| 0 <= i < split_seq(s, sep).len() ==> !(#[trigger] split_seq(s, sep)[i]).contains(sep),
        joined(split_seq(s, sep), sep) == s,
    decreases s.len(),
{
    let pieces = split_seq(s, sep);
    if s.len() == 0 {
        assert(joined(pieces, sep) =~= s);
    } else {
        let before = split_seq(s.drop_last(), sep);
        let c = s.last();
        lemma_split_joins(s.drop_last(), sep);
        assert(s =~= s.drop_last().push(c));
        if c == sep {
            assert(pieces.drop_last() =~= before);
            assert(joined(before, sep).push(sep) + Seq::<char>::empty() =~= s);
            assert forall|i: int| 0 <= i < pieces.len() implies !(#[trigger] pieces[i]).contains(sep) by {
                if i < before.len() {
                    assert(pieces[i] == before[i]);
                }
            }
        } else {
            let grown = before.last().push(c);
            assert(pieces.last() == grown);
            assert(pieces.drop_last() =~= before.drop_last());
            if before.len() == 1 {
                assert(joined(pieces, sep) =~= s);
            } else {
                assert(joined(before.drop_last(), sep).push(sep) + grown =~= (joined(before.drop_last(), sep).push(
                    sep,
                ) + before.last()).push(c));
            }
            assert forall|i: int| 0 <= i < pieces.len() implies !(#[trigger] pieces[i]).contains(sep) by {
                if i < before.len() - 1 {
                    assert(pieces[i] == before[i]);
                } else {
                    assert(!before[before.len() - 1].contains(sep));
                    assert forall|k: int| 0 <= k < grown.len() implies grown[k] != sep by {
                        if k < before.last().len() {
                            assert(before.last().contains(grown[k]));
                        }
                    }
                }
            }
        }
    }
}

/// The pieces into which the occurrences of `sep` cut `s`.
pub fn split_on(s: &str, sep: char) -> (r: Vec<String>)
    ensures
        strings(r@) == split_seq(s@, sep),
{
    let chars = to_chars(s);
    let mut done: Vec<String> = Vec::new();
    let mut piece = String::new();
    let mut i: usize = 0;
    proof {
        assert(chars@.take(0) =~= Seq::<char>::empty());
        assert(strings(done@).push(piece@) =~= seq![Seq::<char>::empty()]);
    }
    while i < chars.len()
        invariant
            i <= chars.len(),
            strings(done@).push(piece@) == split_seq(chars@.take(i as int), sep),
        decreases chars.len() - i,
    {
        let ghost had = strings(done@);
        let ghost old_piece = piece@;
        let c = chars[i];
        if c == sep {
            done.push(piece);
            piece = String::new();
        } else {
            push_char(&mut piece, c);
        }
        proof {
            let now = chars@.take(i + 1);
            assert(now.drop_last() =~= chars@.take(i as int));
            assert(now.last() == c);
            assert(had.push(old_piece).drop_last() =~= had);
            if c == sep {
                assert(strings(done@) =~= had.push(old_piece));
            }
        }
        i += 1;
    }
    done.push(piece);
    proof {
        assert(chars@.take(chars.len() as int) =~= chars@);
        assert(strings(done@) =~= split_seq(s@, sep));
    }
    done
}

/// The order of strings in a dictionary whose alphabet is the code points:
/// the first character in which two strings differ decides, and a string
/// comes before every longer one that begins with it.
pub open spec fn lex_le(a: Seq<char>, b: Seq<char>) -> bool
    decreases a.len(),
{
    if a.len() == 0 {
        true
    } else if b.len() == 0 {
        false
    } else if a[0] != b[0] {
        a[0] < b[0]
    } else {
        lex_le(a.drop_first(), b.drop_first())
    }
}

/// Of two strings, one comes before the other or they are the same.
pub proof fn lemma_lex_total(a: Seq<char>, b: Seq<char>)
    ensures
        lex_le(a, b) || lex_le(b, a),
    decreases a.len(),
{
    if a.len() > 0 && b.len() > 0 && a[0] == b[0] {
        lemma_lex_total(a.drop_first(), b.drop_first());
    }
}

/// Every string is in order with itself.
pub proof fn lemma_lex_reflexive(a: Seq<char>)
    ensures
        lex_le(a, a),
    decreases a.len(),
{
    if a.len() > 0 {
        lemma_lex_reflexive(a.drop_first());
    }
}

/// The order carries over from one pair to the next.
pub proof fn lemma_lex_transitive(a: Seq<char>, b: Seq<char>, c: Seq<char>)
    requires
        lex_le(a, b),
        lex_le(b, c),
    ensures
        lex_le(a, c),
    decreases a.len(),
{
    if a.len() > 0 && b.len() > 0 && c.len() > 0 && a[0] == b[0] && b[0] == c[0] {
        lemma_lex_transitive(a.drop_first(), b.drop_first(), c.drop_first());
    }
}

/// Whether `a` comes before `b` in the dictionary, or is the same.
pub fn chars_le(a: &Vec<char>, b: &Vec<char>) -> (r: bool)
    ensures
        r == lex_le(a@, b@),
{
    let mut i: usize = 0;
    assert(a@.skip(0) =~= a@ && b@.skip(0) =~= b@);
    while i < a.len() && i < b.len()
        invariant
            i <= a.len(),
            i <= b.len(),
            lex_le(a@, b@) == lex_le(a@.skip(i as int), b@.skip(i as int)),
        decreases a.len() - i,
    {
        if a[i] != b[i] {
            return a[i] < b[i];
        }
        assert(a@.skip(i as int).drop_first() =~= a@.skip(i + 1));
        assert(b@.skip(i as int).drop_first() =~= b@.skip(i + 1));
        i += 1;
    }
    i == a.len()
}

/// Whether the strings stand in the order of the dictionary.
pub open spec fn sorted(v: Seq<Seq<char>>) -> bool {
    forall|i: int, j: int| 0 <= i <= j < v.len() ==> lex_le(#[trigger] v[i], #[trigger] v[j])
}

/// The index of a string of `v` that no other string of `v` comes before.
fn least(v: &Vec<String>) -> (m: usize)
    requires
        v.len() > 0,
    ensures
        m < v.len(),
        forall|k: int| 0 <= k < v.len() ==> lex_le(v[m as int]@, #[trigger] v[k]@),
{
    let mut m: usize = 0;
    let mut best = to_chars(v[0].as_str());
    let mut j: usize = 1;
    proof {
        lemma_lex_reflexive(v[0]@);
    }
    while j < v.len()
        invariant
            m < j <= v.len(),
            best@ == v[m as int]@,
            forall|k: int| 0 <= k < j ==> lex_le(v[m as int]@, #[trigger] v[k]@),
        decreases v.len() - j,
    {
        let other = to_chars(v[j].as_str());
        if !chars_le(&best, &other) {
            proof {
                lemma_lex_total(best@, other@);
                lemma_lex_reflexive(other@);
                assert forall|k: int| 0 <= k < j + 1 implies lex_le(v[j as int]@, #[trigger] v[k]@) by {
                    if k < j {
                        lemma_lex_transitive(other@, best@, v[k]@);
                    }
                }
            }
            m = j;
            best = other;
        }
        j += 1;
    }
    m
}

/// The strings of `v` in the order of the dictionary.
pub fn sort_strings(v: Vec<String>) -> (r: Vec<String>)
    ensures
        sorted(strings(r@)),
        strings(r@).to_multiset() == strings(v@).to_multiset(),
{
    broadcast use vstd::seq_lib::group_to_multiset_ensures;

    let mut rest = v;
    let mut out: Vec<String> = Vec::new();
    assert(strings(out@) =~= Seq::<Seq<char>>::empty());
    while rest.len() > 0
        invariant
            sorted(strings(out@)),
            strings(out@).to_multiset().add(strings(rest@).to_multiset()) == strings(v@).to_multiset(),
            forall|i: int, k: int|
                0 <= i < out.len() && 0 <= k < rest.len() ==> lex_le(#[trigger] out[i]@, #[trigger] rest[k]@),
        decreases rest.len(),
    {
        let m = least(&rest);
        let ghost before = rest@;
        let ghost had = out@;
        let s = rest.remove(m);
        out.push(s);
        proof {
            assert(strings(rest@) =~= strings(before).remove(m as int));
            assert(strings(out@) =~= strings(had).push(s@));
            assert(strings(before)[m as int] == s@);
            assert(strings(before).contains(s@));
            strings(before).to_multiset_ensures();
            vstd::seq_lib::to_multiset_remove(strings(before), m as int);
            vstd::seq_lib::to_multiset_build(strings(had), s@);
            assert(strings(before).to_multiset().count(s@) > 0);
            assert(strings(rest@).to_multiset() =~= strings(before).to_multiset().remove(s@));
            assert(strings(out@).to_multiset() =~= strings(had).to_multiset().insert(s@));
            assert(strings(out@).to_multiset().add(strings(rest@).to_multiset()) =~= strings(
                had,
            ).to_multiset().add(strings(before).to_multiset()));
            assert forall|i: int, j: int| 0 <= i <= j < out.len() implies lex_le(
                #[trigger] strings(out@)[i],
                #[trigger] strings(out@)[j],
            ) by {
                if j < had.len() {
                    assert(lex_le(strings(had)[i], strings(had)[j]));
                } else if i < had.len() {
                    assert(lex_le(had[i]@, before[m as int]@));
                } else {
                    lemma_lex_reflexive(s@);
                }
            }
            assert forall|i: int, k: int| 0 <= i < out.len() && 0 <= k < rest.len() implies lex_le(
                #[trigger] out[i]@,
                #[trigger] rest[k]@,
            ) by {
                let kk = if k < m { k } else { k + 1 };
                assert(rest[k] == before[kk]);
                if i < had.len() {
                    assert(lex_le(had[i]@, before[kk]@));
                } else {
                    assert(lex_le(before[m as int]@, before[kk]@));
                }
            }
        }
    }
    assert(strings(rest@).to_multiset() =~= Multiset::<Seq<char>>::empty());
    assert(strings(out@).to_multiset().add(Multiset::<Seq<char>>::empty()) =~= strings(out@).to_multiset());
    out
}

} // verus!
