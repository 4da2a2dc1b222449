//! The sanitizer: a pure text transform that strips bracketed spans, replaces
//! degenerate results with a fixed sentinel message, and normalizes escape
//! sequences and spacing in a single pass each.

use vstd::prelude::*;
use crate::text::chars_to_string;
use crate::text::str_to_chars;

verus! {

/// Bracket stripping from depth `depth`: a character is kept only while the
/// nesting counter is zero; the bracket marks themselves only move the
/// counter, which may go negative on unbalanced closing marks.
pub open spec fn strip_from(s: Seq<char>, depth: int) -> Seq<char>
    decreases s.len(),
{
    if s.len() == 0 {
        Seq::empty()
    } else {
        let c = s[0];
        let rest = s.drop_first();
        if c == '(' || c == '[' {
            strip_from(rest, depth + 1)
        } else if c == ')' || c == ']' {
            strip_from(rest, depth - 1)
        } else if depth == 0 {
            seq![c] + strip_from(rest, depth)
        } else {
            strip_from(rest, depth)
        }
    }
}

/// One left-to-right pass replacing every non-overlapping occurrence of `pat`
/// by `rep`; later occurrences created by a replacement are not revisited.
pub open spec fn replace_all(s: Seq<char>, pat: Seq<char>, rep: Seq<char>) -> Seq<char>
    decreases s.len(),
{
    if pat.len() == 0 || s.len() < pat.len() {
        s
    } else if s.take(pat.len() as int) == pat {
        rep + replace_all(s.skip(pat.len() as int), pat, rep)
    } else {
        seq![s[0]] + replace_all(s.drop_first(), pat, rep)
    }
}

/// The fixed message returned when the stripped text ends in a colon.
pub open spec fn sentinel_text() -> Seq<char> {
    "Your message was not recognised by database. \nPlease, correct it or enter another one."@
}

/// The escape and spacing normalization passes, in order: drop literal
/// backslash-n, un-escape backslash-quote, collapse space-comma, collapse
/// double spaces, un-escape backslash-apostrophe. Each pass runs once.
pub open spec fn normalize_spec(s: Seq<char>) -> Seq<char> {
    let s1 = replace_all(s, seq!['\\', 'n'], Seq::empty());
    let s2 = replace_all(s1, seq!['\\', '"'], seq!['"']);
    let s3 = replace_all(s2, seq![' ', ','], seq![',']);
    let s4 = replace_all(s3, seq![' ', ' '], seq![' ']);
    replace_all(s4, seq!['\\', '\''], seq!['\''])
}

/// What `beautify` returns: the bracket-stripped text, replaced whole by the
/// sentinel when it ends in a colon, otherwise normalized.
pub open spec fn beautify_spec(s: Seq<char>) -> Seq<char> {
    let stripped = strip_from(s, 0);
    if stripped.len() > 0 && stripped[stripped.len() - 1] == ':' {
        sentinel_text()
    } else {
        normalize_spec(stripped)
    }
}

/// Law: text without bracket characters passes bracket stripping unchanged.
pub proof fn lemma_strip_without_brackets(s: Seq<char>)
    requires
        forall|i: int|
            0 <= i < s.len() ==> s[i] != '(' && s[i] != ')' && s[i] != '[' && s[i] != ']',
    ensures
        strip_from(s, 0) == s,
    decreases s.len(),
{
    if s.len() == 0 {
        assert(strip_from(s, 0) =~= s);
    } else {
        lemma_strip_without_brackets(s.drop_first());
        assert(seq![s[0]] + s.drop_first() =~= s);
    }
}

/// Law: one replacement pass over text in which the pattern does not occur
/// returns the text unchanged.
pub proof fn lemma_replace_absent(s: Seq<char>, pat: Seq<char>, rep: Seq<char>)
    requires
        forall|i: int|
            0 <= i <= s.len() - pat.len() ==> #[trigger] s.subrange(i, i + pat.len() as int)
                != pat,
    ensures
        replace_all(s, pat, rep) == s,
    decreases s.len(),
{
    if pat.len() == 0 || s.len() < pat.len() {
    } else {
        assert(s.subrange(0int, 0int + pat.len() as int) != pat);
        assert(s.take(pat.len() as int) =~= s.subrange(0int, 0int + pat.len() as int));
        assert forall|i: int| 0 <= i <= s.drop_first().len() - pat.len() implies #[trigger] s
            .drop_first().subrange(i, i + pat.len() as int) != pat by {
            assert(s.drop_first().subrange(i, i + pat.len() as int) =~= s.subrange(
                i + 1,
                i + 1 + pat.len() as int,
            ));
        }
        lemma_replace_absent(s.drop_first(), pat, rep);
        assert(seq![s[0]] + s.drop_first() =~= s);
    }
}

/// A replacement pass introduces no character that neither the text nor the
/// replacement holds.
proof fn lemma_replace_keeps_char_absent(s: Seq<char>, pat: Seq<char>, rep: Seq<char>, c: char)
    requires
        forall|i: int| 0 <= i < s.len() ==> s[i] != c,
        forall|i: int| 0 <= i < rep.len() ==> rep[i] != c,
    ensures
        forall|i: int|
            0 <= i < replace_all(s, pat, rep).len() ==> #[trigger] replace_all(s, pat, rep)[i]
                != c,
    decreases s.len(),
{
    if pat.len() == 0 || s.len() < pat.len() {
    } else if s.take(pat.len() as int) == pat {
        assert forall|i: int| 0 <= i < s.skip(pat.len() as int).len() implies #[trigger] s.skip(
            pat.len() as int,
        )[i] != c by {
            assert(s.skip(pat.len() as int)[i] == s[i + pat.len()]);
        }
        lemma_replace_keeps_char_absent(s.skip(pat.len() as int), pat, rep, c);
        let rec = replace_all(s.skip(pat.len() as int), pat, rep);
        assert forall|i: int| 0 <= i < replace_all(s, pat, rep).len() implies #[trigger] replace_all(
            s,
            pat,
            rep,
        )[i] != c by {
            if i < rep.len() {
                assert(replace_all(s, pat, rep)[i] == rep[i]);
            } else {
                assert(replace_all(s, pat, rep)[i] == rec[i - rep.len()]);
            }
        }
    } else {
        assert forall|i: int| 0 <= i < s.drop_first().len() implies #[trigger] s.drop_first()[i]
            != c by {
            assert(s.drop_first()[i] == s[i + 1]);
        }
        lemma_replace_keeps_char_absent(s.drop_first(), pat, rep, c);
        let rec = replace_all(s.drop_first(), pat, rep);
        assert forall|i: int| 0 <= i < replace_all(s, pat, rep).len() implies #[trigger] replace_all(
            s,
            pat,
            rep,
        )[i] != c by {
            if i == 0 {
                assert(replace_all(s, pat, rep)[0] == s[0]);
            } else {
                assert(replace_all(s, pat, rep)[i] == rec[i - 1]);
            }
        }
    }
}

/// Law: on bracket-free text without spaces and backslash-n sequences that
/// does not end in a colon, the sanitizer only un-escapes backslash-quote and
/// backslash-apostrophe and leaves everything else unchanged.
pub proof fn lemma_escape_unescaping(s: Seq<char>)
    requires
        forall|i: int|
            0 <= i < s.len() ==> s[i] != '(' && s[i] != ')' && s[i] != '[' && s[i] != ']',
        forall|i: int| 0 <= i < s.len() ==> s[i] != ' ',
        forall|i: int| 0 <= i <= s.len() - 2 ==> #[trigger] s.subrange(i, i + 2) != seq!['\\', 'n'],
        s.len() > 0 ==> s[s.len() - 1] != ':',
    ensures
        beautify_spec(s) == replace_all(
            replace_all(s, seq!['\\', '"'], seq!['"']),
            seq!['\\', '\''],
            seq!['\''],
        ),
{
    lemma_strip_without_brackets(s);
    lemma_replace_absent(s, seq!['\\', 'n'], Seq::empty());
    let s2 = replace_all(s, seq!['\\', '"'], seq!['"']);
    lemma_replace_keeps_char_absent(s, seq!['\\', '"'], seq!['"'], ' ');
    assert forall|i: int| 0 <= i <= s2.len() - 2 implies #[trigger] s2.subrange(i, i + 2) != seq![
        ' ',
        ',',
    ] by {
        assert(s2.subrange(i, i + 2)[0] == s2[i]);
    }
    assert forall|i: int| 0 <= i <= s2.len() - 2 implies #[trigger] s2.subrange(i, i + 2) != seq![
        ' ',
        ' ',
    ] by {
        assert(s2.subrange(i, i + 2)[0] == s2[i]);
    }
    lemma_replace_absent(s2, seq![' ', ','], seq![',']);
    lemma_replace_absent(s2, seq![' ', ' '], seq![' ']);
}

/// Law: whenever the bracket-stripped text ends in a colon, the sanitizer
/// discards it entirely and returns exactly the sentinel message.
pub proof fn lemma_trailing_colon_gives_sentinel(s: Seq<char>)
    requires
        strip_from(s, 0).len() > 0,
        strip_from(s, 0)[strip_from(s, 0).len() - 1] == ':',
    ensures
        beautify_spec(s) == sentinel_text(),
{
}

proof fn lemma_skip_step(s: Seq<char>, i: int)
    requires
        0 <= i < s.len(),
    ensures
        s.skip(i).len() == s.len() - i,
        s.skip(i)[0] == s[i],
        s.skip(i).drop_first() =~= s.skip(i + 1),
{
}

/// Strips bracketed spans from a character vector, keeping a character only
/// while the nesting counter is zero.
pub fn strip_brackets_chars(v: &Vec<char>) -> (out: Vec<char>)
    ensures
        out@ == strip_from(v@, 0),
{
    let mut out: Vec<char> = Vec::new();
    let mut depth: i128 = 0;
    let mut i: usize = 0;
    proof {
        assert(v@.skip(0) =~= v@);
        assert(out@ + strip_from(v@, 0) =~= strip_from(v@, 0));
    }
    while i < v.len()
        invariant
            i <= v.len(),
            -(i as int) <= depth as int <= i as int,
            strip_from(v@, 0) == out@ + strip_from(v@.skip(i as int), depth as int),
        decreases v.len() - i,
    {
        proof {
            lemma_skip_step(v@, i as int);
        }
        let c = v[i];
        if c == '(' || c == '[' {
            depth = depth + 1;
        } else if c == ')' || c == ']' {
            depth = depth - 1;
        } else if depth == 0 {
            out.push(c);
            proof {
                assert(out@ + strip_from(v@.skip(i as int + 1), 0) =~= out@.drop_last() + (seq![
                    c,
                ] + strip_from(v@.skip(i as int + 1), 0)));
            }
        }
        i += 1;
    }
    proof {
        assert(v@.skip(v.len() as int) =~= Seq::<char>::empty());
        assert(out@ + Seq::<char>::empty() =~= out@);
    }
    out
}

fn match_at(v: &Vec<char>, i: usize, pat: &Vec<char>) -> (r: bool)
    requires
        i + pat.len() <= v.len(),
    ensures
        r == (v@.subrange(i as int, i as int + pat.len() as int) == pat@),
{
    let mut j: usize = 0;
    while j < pat.len()
        invariant
            i + pat.len() <= v.len(),
            j <= pat.len(),
            forall|k: int| 0 <= k < j ==> v@[i + k] == pat@[k],
        decreases pat.len() - j,
    {
        if v[i + j] != pat[j] {
            proof {
                assert(v@.subrange(i as int, i as int + pat.len() as int)[j as int] != pat@[j as int]);
            }
            return false;
        }
        j += 1;
    }
    proof {
        assert(v@.subrange(i as int, i as int + pat.len() as int) =~= pat@);
    }
    true
}

fn replace_chars(v: &Vec<char>, pat: &Vec<char>, rep: &Vec<char>) -> (out: Vec<char>)
    requires
        pat.len() >= 1,
    ensures
        out@ == replace_all(v@, pat@, rep@),
{
    let mut out: Vec<char> = Vec::new();
    let mut i: usize = 0;
    proof {
        assert(v@.skip(0) =~= v@);
        assert(out@ + replace_all(v@, pat@, rep@) =~= replace_all(v@, pat@, rep@));
    }
    while i < v.len()
        invariant
            pat.len() >= 1,
            i <= v.len(),
            replace_all(v@, pat@, rep@) == out@ + replace_all(v@.skip(i as int), pat@, rep@),
        decreases v.len() - i,
    {
        proof {
            lemma_skip_step(v@, i as int);
        }
        if v.len() - i >= pat.len() && match_at(v, i, pat) {
            let ghost pre = out@;
            proof {
                assert(v@.skip(i as int).take(pat.len() as int) =~= v@.subrange(
                    i as int,
                    i as int + pat.len() as int,
                ));
                assert(v@.skip(i as int).skip(pat.len() as int) =~= v@.skip(
                    i as int + pat.len() as int,
                ));
            }
            let mut j: usize = 0;
            while j < rep.len()
                invariant
                    j <= rep.len(),
                    out@ == pre + rep@.take(j as int),
                decreases rep.len() - j,
            {
                out.push(rep[j]);
                proof {
                    assert(pre + rep@.take(j as int + 1) =~= (pre + rep@.take(j as int)).push(
                        rep@[j as int],
                    ));
                }
                j += 1;
            }
            proof {
                assert(rep@.take(rep.len() as int) =~= rep@);
                assert((pre + rep@) + replace_all(v@.skip(i as int + pat.len() as int), pat@, rep@)
                    =~= pre + (rep@ + replace_all(v@.skip(i as int + pat.len() as int), pat@, rep@)));
            }
            i += pat.len();
        } else {
            out.push(v[i]);
            proof {
                let tail = v@.skip(i as int + 1);
                if v@.skip(i as int).len() < pat.len() {
                    assert(replace_all(v@.skip(i as int), pat@, rep@) == v@.skip(i as int));
                    assert(replace_all(tail, pat@, rep@) == tail);
                    assert(out@ + tail =~= out@.drop_last() + v@.skip(i as int));
                } else {
                    assert(v@.skip(i as int).take(pat.len() as int) != pat@) by {
                        assert(v@.skip(i as int).take(pat.len() as int) =~= v@.subrange(
                            i as int,
                            i as int + pat.len() as int,
                        ));
                    }
                    assert(out@ + replace_all(tail, pat@, rep@) =~= out@.drop_last() + (seq![
                        v@[i as int],
                    ] + replace_all(tail, pat@, rep@)));
                }
            }
            i += 1;
        }
    }
    proof {
        assert(v@.skip(v.len() as int) =~= Seq::<char>::empty());
        assert(out@ + Seq::<char>::empty() =~= out@);
    }
    out
}

fn one_char(a: char) -> (v: Vec<char>)
    ensures
        v@ == seq![a],
{
    let mut v: Vec<char> = Vec::new();
    v.push(a);
    proof {
        assert(v@ =~= seq![a]);
    }
    v
}

fn two_chars(a: char, b: char) -> (v: Vec<char>)
    ensures
        v@ == seq![a, b],
{
    let mut v: Vec<char> = Vec::new();
    v.push(a);
    v.push(b);
    proof {
        assert(v@ =~= seq![a, b]);
    }
    v
}

/// Cleans raw extracted text: strips bracketed spans, substitutes the
/// sentinel message for text ending in a colon, and otherwise normalizes
/// escapes and spacing, each pass applied exactly once.
pub fn beautify(target: &String) -> (r: String)
    ensures
        r@ == beautify_spec(target@),
{
    let chars = str_to_chars(target.as_str());
    let stripped = strip_brackets_chars(&chars);
    if stripped.len() > 0 && stripped[stripped.len() - 1] == ':' {
        return String::from_str(
            "Your message was not recognised by database. \nPlease, correct it or enter another one.",
        );
    }
    let empty_rep: Vec<char> = Vec::new();
    let s1 = replace_chars(&stripped, &two_chars('\\', 'n'), &empty_rep);
    let s2 = replace_chars(&s1, &two_chars('\\', '"'), &one_char('"'));
    let s3 = replace_chars(&s2, &two_chars(' ', ','), &one_char(','));
    let s4 = replace_chars(&s3, &two_chars(' ', ' '), &one_char(' '));
    let s5 = replace_chars(&s4, &two_chars('\\', '\''), &one_char('\''));
    chars_to_string(&s5)
}

} // verus!
