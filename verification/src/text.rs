//! Literal text replacement and template rendering over sequences of characters.

use vstd::prelude::*;

verus! {

/// Whether `s` begins with `pat`.
pub open spec fn starts_with(s: Seq<char>, pat: Seq<char>) -> bool {
    pat.len() <= s.len() && s.subrange(0, pat.len() as int) == pat
}

/// The text `s` with every occurrence of `from` replaced by `to`.
///
/// Occurrences are found from left to right and do not overlap: once an
/// occurrence is replaced, the search goes on behind it, and the inserted text
/// is never searched again. An empty `from` occurs before every character and
/// at the end of the text.
pub open spec fn replace_all(s: Seq<char>, from: Seq<char>, to: Seq<char>) -> Seq<char>
    decreases s.len(),
{
    if from.len() == 0 {
        if s.len() == 0 {
            to
        } else {
            to.push(s[0]) + replace_all(s.skip(1), from, to)
        }
    } else if starts_with(s, from) {
        to + replace_all(s.skip(from.len() as int), from, to)
    } else if s.len() == 0 {
        s
    } else {
        seq![s[0]] + replace_all(s.skip(1), from, to)
    }
}

/// The text after the substitutions of `variant` were applied one after the
/// other, in the order of the sequence. Each pair is a marker and the value
/// that takes its place. A later substitution sees what an earlier one
/// inserted.
pub open spec fn render(text: Seq<char>, variant: Seq<(Seq<char>, Seq<char>)>) -> Seq<char>
    decreases variant.len(),
{
    if variant.len() == 0 {
        text
    } else {
        render(replace_all(text, variant[0].0, variant[0].1), variant.skip(1))
    }
}

/// A text in which the marker does not occur stays as it is.
pub proof fn lemma_replace_without_occurrence(s: Seq<char>, from: Seq<char>, to: Seq<char>)
    requires
        from.len() > 0,
        forall|i: int| 0 <= i <= s.len() ==> !starts_with(#[trigger] s.skip(i), from),
    ensures
        replace_all(s, from, to) == s,
    decreases s.len(),
{
    assert(s.skip(0) =~= s);
    if s.len() > 0 {
        assert forall|i: int| 0 <= i <= s.skip(1).len() implies !starts_with(
            #[trigger] s.skip(1).skip(i),
            from,
        ) by {
            assert(s.skip(1).skip(i) =~= s.skip(i + 1));
        }
        lemma_replace_without_occurrence(s.skip(1), from, to);
    }
}

/// The first occurrence of the marker gives way to the value, the text before
/// it stays as it is, and the text behind it is treated in the same way.
pub proof fn lemma_replace_first_occurrence(
    before: Seq<char>,
    from: Seq<char>,
    to: Seq<char>,
    behind: Seq<char>,
)
    requires
        from.len() > 0,
        forall|i: int|
            0 <= i < before.len() ==> !starts_with(
                #[trigger] (before + from + behind).skip(i),
                from,
            ),
    ensures
        replace_all(before + from + behind, from, to) == before + to + replace_all(
            behind,
            from,
            to,
        ),
    decreases before.len(),
{
    let s = before + from + behind;
    if before.len() == 0 {
        assert(s.subrange(0, from.len() as int) =~= from);
        assert(s.skip(from.len() as int) =~= behind);
        assert(before + to + replace_all(behind, from, to) =~= to + replace_all(behind, from, to));
    } else {
        assert(s.skip(0) =~= s);
        assert(s.skip(1) =~= before.skip(1) + from + behind);
        assert forall|i: int| 0 <= i < before.skip(1).len() implies !starts_with(
            #[trigger] (before.skip(1) + from + behind).skip(i),
            from,
        ) by {
            assert((before.skip(1) + from + behind).skip(i) =~= s.skip(i + 1));
        }
        lemma_replace_first_occurrence(before.skip(1), from, to, behind);
        assert(seq![s[0]] + (before.skip(1) + to + replace_all(behind, from, to)) =~= before + to
            + replace_all(behind, from, to));
    }
}

/// Substitutions are applied in turn: rendering with one list of
/// substitutions followed by another is rendering with the first list and
/// then rendering the outcome with the second.
pub proof fn lemma_render_in_turn(
    text: Seq<char>,
    first: Seq<(Seq<char>, Seq<char>)>,
    second: Seq<(Seq<char>, Seq<char>)>,
)
    ensures
        render(text, first + second) == render(render(text, first), second),
    decreases first.len(),
{
    if first.len() > 0 {
        let replaced = replace_all(text, first[0].0, first[0].1);
        lemma_render_in_turn(replaced, first.skip(1), second);
        assert((first + second).skip(1) =~= first.skip(1) + second);
    }
}

/// `String::push` appends the one character to the end of the string.
pub assume_specification[ String::push ](s: &mut String, ch: char)
    ensures
        final(s)@ == old(s)@.push(ch),
;

/// The characters of `s`, in order.
pub(crate) fn chars_of(s: &str) -> (v: Vec<char>)
    ensures
        v@ == s@,
{
    let mut v: Vec<char> = Vec::new();
    for c in it: s.chars()
        invariant
            v@ == it.seq().take(it.index()),
            it.seq() == s@,
    {
        v.push(c);
    }
    v
}

/// Whether `pat` stands in `text` at position `at`.
fn matches_at(text: &Vec<char>, at: usize, pat: &Vec<char>) -> (found: bool)
    requires
        at <= text.len(),
    ensures
        found == starts_with(text@.skip(at as int), pat@),
{
    if pat.len() > text.len() - at {
        return false;
    }
    let mut k: usize = 0;
    while k < pat.len()
        invariant
            at <= text.len(),
            pat.len() <= text.len() - at,
            k <= pat.len(),
            forall|j: int| 0 <= j < k ==> text@[at + j] == pat@[j],
        decreases pat.len() - k,
    {
        if text[at + k] != pat[k] {
            return false;
        }
        k += 1;
    }
    proof {
        let rest = text@.skip(at as int);
        assert(rest.subrange(0, pat.len() as int) =~= pat@);
    }
    true
}

/// Replaces every occurrence of `from` in `text` by `to`, from left to right
/// and without overlap.
pub fn replace(text: &str, from: &str, to: &str) -> (out: String)
    ensures
        out@ == replace_all(text@, from@, to@),
{
    let t = chars_of(text);
    let f = chars_of(from);
    let mut out = String::new();
    let mut i: usize = 0;
    proof {
        assert(t@.skip(0) =~= t@);
    }
    while i < t.len()
        invariant
            i <= t.len(),
            t@ == text@,
            f@ == from@,
            out@ + replace_all(t@.skip(i as int), f@, to@) == replace_all(t@, f@, to@),
        decreases t.len() - i,
    {
        let ghost rest = t@.skip(i as int);
        if f.len() == 0 {
            out.append(to);
            out.push(t[i]);
            proof {
                assert(rest.skip(1) =~= t@.skip(i + 1));
            }
            i += 1;
        } else if matches_at(&t, i, &f) {
            out.append(to);
            proof {
                assert(rest.skip(f.len() as int) =~= t@.skip(i + f.len()));
            }
            i += f.len();
        } else {
            out.push(t[i]);
            proof {
                assert(rest.skip(1) =~= t@.skip(i + 1));
            }
            i += 1;
        }
    }
    if f.len() == 0 {
        out.append(to);
    }
    out
}

/// Applies the substitutions of `variant` to `text`, one after the other.
pub fn render_text(text: &str, variant: &Vec<(String, String)>) -> (out: String)
    ensures
        out@ == render(text@, variant.deep_view()),
{
    let mut out = String::from_str(text);
    let mut i: usize = 0;
    proof {
        assert(variant.deep_view().skip(0) =~= variant.deep_view());
    }
    while i < variant.len()
        invariant
            i <= variant.len(),
            render(out@, variant.deep_view().skip(i as int)) == render(
                text@,
                variant.deep_view(),
            ),
        decreases variant.len() - i,
    {
        let ghost rest = variant.deep_view().skip(i as int);
        let next = replace(out.as_str(), variant[i].0.as_str(), variant[i].1.as_str());
        proof {
            assert(rest.skip(1) =~= variant.deep_view().skip(i + 1));
        }
        out = next;
        i += 1;
    }
    out
}

} // verus!
