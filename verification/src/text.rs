//! Text as sequences of characters: whitespace, splitting at separators, and
//! the whitespace-separated tokens of a string.

use vstd::prelude::*;
use vstd::std_specs::iter::IteratorSpec;

verus! {

/// `String::push` appends the given character to the end of the string and
/// leaves what was there before untouched.
pub assume_specification[ String::push ](s: &mut String, c: char)
    ensures
        final(s)@ == old(s)@.push(c),
;

/// The characters with the Unicode property `White_Space`.
pub open spec fn white_space(c: char) -> bool {
    let u = c as u32;
    ||| 0x09 <= u <= 0x0D
    ||| u == 0x20
    ||| u == 0x85
    ||| u == 0xA0
    ||| u == 0x1680
    ||| 0x2000 <= u <= 0x200A
    ||| u == 0x2028
    ||| u == 0x2029
    ||| u == 0x202F
    ||| u == 0x205F
    ||| u == 0x3000
}

/// Tells whether `c` is a whitespace character.
pub fn is_whitespace(c: char) -> (r: bool)
    ensures
        r == white_space(c),
{
    let u: u32 = c as u32;
    (0x09 <= u && u <= 0x0D) || u == 0x20 || u == 0x85 || u == 0xA0 || u == 0x1680 || (0x2000 <= u
        && u <= 0x200A) || u == 0x2028 || u == 0x2029 || u == 0x202F || u == 0x205F || u == 0x3000
}

/// The views of the strings of `v`, in order.
pub open spec fn views(v: Seq<String>) -> Seq<Seq<char>> {
    v.map_values(|s: String| s@)
}

/// No character of `s` is a separator.
pub open spec fn free_of(s: Seq<char>, sep: spec_fn(char) -> bool) -> bool {
    forall|k: int| 0 <= k < s.len() ==> !sep(#[trigger] s[k])
}

/// The length of the longest prefix of `s` that holds no separator.
pub open spec fn run_len(s: Seq<char>, sep: spec_fn(char) -> bool) -> nat
    decreases s.len(),
{
    if s.len() == 0 || sep(s[0]) {
        0
    } else {
        1 + run_len(s.drop_first(), sep)
    }
}

/// The pieces of `s` that lie between its separators, in order. There is one
/// piece more than there are separators, and a piece may be empty.
pub open spec fn split(s: Seq<char>, sep: spec_fn(char) -> bool) -> Seq<Seq<char>>
    decreases s.len(),
{
    let n = run_len(s, sep) as int;
    if n >= s.len() {
        seq![s]
    } else {
        seq![s.take(n)] + split(s.skip(n + 1), sep)
    }
}

/// The separator that tokens are split at: any whitespace character.
pub open spec fn whitespace() -> spec_fn(char) -> bool {
    |c: char| white_space(c)
}

/// `s` holds nothing but whitespace.
pub open spec fn blank(s: Seq<char>) -> bool {
    forall|k: int| 0 <= k < s.len() ==> white_space(#[trigger] s[k])
}

/// The pieces that count as tokens: those with at least one character.
pub open spec fn nonempty() -> spec_fn(Seq<char>) -> bool {
    |p: Seq<char>| p.len() > 0
}

/// The tokens of `s`: what lies between its whitespace characters, without
/// the empty pieces.
pub open spec fn tokens(s: Seq<char>) -> Seq<Seq<char>> {
    split(s, whitespace()).filter(nonempty())
}

/// A run ends at the first separator, or at the end of the text.
pub proof fn lemma_run_len(s: Seq<char>, sep: spec_fn(char) -> bool)
    ensures
        run_len(s, sep) <= s.len(),
        free_of(s.take(run_len(s, sep) as int), sep),
        run_len(s, sep) < s.len() ==> sep(s[run_len(s, sep) as int]),
    decreases s.len(),
{
    if s.len() > 0 && !sep(s[0]) {
        let t = s.drop_first();
        lemma_run_len(t, sep);
        let n = run_len(t, sep) as int;
        assert forall|k: int| 0 <= k < n + 1 implies !sep(#[trigger] s.take(n + 1)[k]) by {
            if k > 0 {
                assert(s.take(n + 1)[k] == t.take(n)[k - 1]);
            }
        }
    }
}

/// A prefix without separators that is followed by a separator, or by
/// nothing, is exactly the first run.
pub proof fn lemma_run_len_prefix(cur: Seq<char>, rest: Seq<char>, sep: spec_fn(char) -> bool)
    requires
        free_of(cur, sep),
        rest.len() == 0 || sep(rest[0]),
    ensures
        run_len(cur + rest, sep) == cur.len(),
    decreases cur.len(),
{
    if cur.len() > 0 {
        assert((cur + rest).drop_first() =~= cur.drop_first() + rest);
        lemma_run_len_prefix(cur.drop_first(), rest, sep);
    }
}

/// A text without separators is a single piece.
pub proof fn lemma_split_whole(cur: Seq<char>, sep: spec_fn(char) -> bool)
    requires
        free_of(cur, sep),
    ensures
        split(cur, sep) == seq![cur],
{
    lemma_run_len_prefix(cur, Seq::empty(), sep);
}

/// The first separator ends the first piece, and the pieces of what follows
/// it come after.
pub proof fn lemma_split_at_separator(
    cur: Seq<char>,
    c: char,
    rest: Seq<char>,
    sep: spec_fn(char) -> bool,
)
    requires
        free_of(cur, sep),
        sep(c),
    ensures
        split(cur.push(c) + rest, sep) == seq![cur] + split(rest, sep),
{
    let s = cur.push(c) + rest;
    let tail = seq![c] + rest;
    assert(s =~= cur + tail);
    lemma_run_len_prefix(cur, tail, sep);
    let n = cur.len() as int;
    assert(s.take(n) =~= cur);
    assert(s.skip(n + 1) =~= rest);
}

/// No piece holds a separator.
pub proof fn lemma_pieces_free(s: Seq<char>, sep: spec_fn(char) -> bool)
    ensures
        forall|i: int| 0 <= i < split(s, sep).len() ==> free_of(#[trigger] split(s, sep)[i], sep),
    decreases s.len(),
{
    lemma_run_len(s, sep);
    let n = run_len(s, sep) as int;
    if n >= s.len() {
        assert(s.take(n) =~= s);
    } else {
        let rest = s.skip(n + 1);
        lemma_pieces_free(rest, sep);
        assert forall|i: int| 0 <= i < split(s, sep).len() implies free_of(
            #[trigger] split(s, sep)[i],
            sep,
        ) by {
            if i > 0 {
                assert(split(s, sep)[i] == split(rest, sep)[i - 1]);
            }
        }
    }
}

/// Every token holds at least one character, and no whitespace.
pub proof fn lemma_tokens_are_words(s: Seq<char>)
    ensures
        forall|i: int|
            0 <= i < tokens(s).len() ==> (#[trigger] tokens(s)[i]).len() > 0 && free_of(
                tokens(s)[i],
                whitespace(),
            ),
{
    let pieces = split(s, whitespace());
    lemma_pieces_free(s, whitespace());
    assert forall|i: int| 0 <= i < tokens(s).len() implies (#[trigger] tokens(s)[i]).len() > 0
        && free_of(tokens(s)[i], whitespace()) by {
        pieces.lemma_filter_pred(nonempty(), i);
        pieces.lemma_filter_contains_rev(nonempty(), tokens(s)[i]);
    }
}

/// Of a single piece the tokens keep it where it is not empty.
proof fn lemma_filter_one(piece: Seq<char>)
    ensures
        seq![piece].filter(nonempty()) == if piece.len() > 0 {
            seq![piece]
        } else {
            Seq::<Seq<char>>::empty()
        },
{
    let none = Seq::<Seq<char>>::empty();
    none.lemma_filter_push(piece, nonempty());
    none.lemma_filter_len(nonempty());
}

/// Behind a leading whitespace character a text is blank exactly where the
/// whole text is.
proof fn lemma_blank_behind_whitespace(s: Seq<char>)
    requires
        s.len() > 0,
        white_space(s[0]),
    ensures
        blank(s) <==> blank(s.skip(1)),
{
    let rest = s.skip(1);
    if blank(rest) {
        assert forall|k: int| 0 <= k < s.len() implies white_space(#[trigger] s[k]) by {
            if k > 0 {
                assert(s[k] == rest[k - 1]);
            }
        }
    }
}

/// A text has no token exactly where it is blank.
pub proof fn lemma_blank_has_no_token(s: Seq<char>)
    ensures
        tokens(s).len() == 0 <==> blank(s),
    decreases s.len(),
{
    lemma_run_len(s, whitespace());
    let n = run_len(s, whitespace()) as int;
    let first = s.take(n);
    lemma_filter_one(first);
    if n >= s.len() {
        assert(first =~= s);
    } else {
        let rest = s.skip(n + 1);
        lemma_blank_has_no_token(rest);
        Seq::filter_distributes_over_add(seq![first], split(rest, whitespace()), nonempty());
        if n == 0 {
            lemma_blank_behind_whitespace(s);
        }
    }
}

/// Splits `s` at whitespace and returns the tokens between, in order.
pub fn split_whitespace(s: &str) -> (out: Vec<String>)
    ensures
        views(out@) == tokens(s@),
{
    let mut out: Vec<String> = Vec::new();
    let mut cur = String::new();
    let mut it = s.chars();
    let ghost mut i: int = 0;
    let ghost mut pieces: Seq<Seq<char>> = Seq::empty();
    loop
        invariant
            0 <= i <= s@.len(),
            it.remaining() == s@.skip(i),
            free_of(cur@, whitespace()),
            split(s@, whitespace()) == pieces + split(cur@ + s@.skip(i), whitespace()),
            views(out@) == pieces.filter(nonempty()),
        decreases s@.len() - i,
    {
        match it.next() {
            None => {
                proof {
                    lemma_split_whole(cur@, whitespace());
                    assert(pieces + seq![cur@] =~= pieces.push(cur@));
                    pieces.lemma_filter_push(cur@, nonempty());
                }
                if !cur.as_str().is_empty() {
                    out.push(cur);
                }
                return out;
            },
            Some(c) => {
                let ghost rest = s@.skip(i + 1);
                if is_whitespace(c) {
                    proof {
                        assert(cur@ + s@.skip(i) =~= cur@.push(c) + rest);
                        lemma_split_at_separator(cur@, c, rest, whitespace());
                        pieces.lemma_filter_push(cur@, nonempty());
                        assert(pieces + (seq![cur@] + split(rest, whitespace())) =~= pieces.push(
                            cur@,
                        ) + split(Seq::<char>::empty() + rest, whitespace()));
                        pieces = pieces.push(cur@);
                    }
                    if !cur.as_str().is_empty() {
                        out.push(cur);
                    }
                    cur = String::new();
                } else {
                    proof {
                        assert(cur@ + s@.skip(i) =~= cur@.push(c) + rest);
                    }
                    cur.push(c);
                }
                proof {
                    i = i + 1;
                }
            },
        }
    }
}

} // verus!
