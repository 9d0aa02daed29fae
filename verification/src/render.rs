//! How a machine is shown: a line with its state, a line with the symbols of
//! its tape, and below it a line with a caret where the head is.

use crate::machine::Configuration;
use crate::text::views;
use vstd::prelude::*;
use vstd::seq_lib::lemma_flatten_concat;
use vstd::string::{StrSliceExecFns, StringExecFns};

verus! {

/// `n` spaces.
pub open spec fn spaces(n: nat) -> Seq<char> {
    Seq::new(n, |i: int| ' ')
}

/// What is shown of each cell of the tape: its symbol, followed by a space.
pub open spec fn cells(tape: Seq<Seq<char>>) -> Seq<Seq<char>> {
    tape.map_values(|symbol: Seq<char>| symbol.push(' '))
}

/// The line that shows the tape.
pub open spec fn tape_line(tape: Seq<Seq<char>>) -> Seq<char> {
    cells(tape).flatten()
}

/// What stands below a cell whose symbol has `width` characters: as many
/// spaces as the symbol has characters, with a caret before them where the
/// head is on the cell, and one more space after them where it is not.
pub open spec fn mark(width: nat, under_head: bool) -> Seq<char> {
    if under_head {
        seq!['^'] + spaces(width)
    } else {
        spaces(width).push(' ')
    }
}

/// What stands below each cell of the tape.
pub open spec fn marks(tape: Seq<Seq<char>>, head: int) -> Seq<Seq<char>> {
    Seq::new(tape.len(), |i: int| mark(tape[i].len(), i == head))
}

/// The line below the tape, which shows where the head is.
pub open spec fn mark_line(tape: Seq<Seq<char>>, head: int) -> Seq<char> {
    marks(tape, head).flatten()
}

/// A configuration as three lines of text: the state, the tape, and a caret
/// below the first character of the symbol under the head.
pub open spec fn rendering(c: Configuration) -> Seq<char> {
    "STATE: "@ + c.state + seq!['\n'] + tape_line(c.tape) + seq!['\n'] + mark_line(c.tape, c.head)
        + seq!['\n']
}

/// The column of the tape's line in which the symbol of cell `i` starts.
pub open spec fn column(tape: Seq<Seq<char>>, i: int) -> int {
    tape_line(tape.take(i)).len() as int
}

/// Two lines that are made of pieces of the same lengths have the same
/// length.
proof fn lemma_same_lengths(x: Seq<Seq<char>>, y: Seq<Seq<char>>)
    requires
        x.len() == y.len(),
        forall|i: int| 0 <= i < x.len() ==> (#[trigger] x[i]).len() == y[i].len(),
    ensures
        x.flatten().len() == y.flatten().len(),
    decreases x.len(),
{
    if x.len() > 0 {
        lemma_same_lengths(x.drop_last(), y.drop_last());
        x.drop_last().lemma_flatten_push(x.last());
        y.drop_last().lemma_flatten_push(y.last());
        assert(x =~= x.drop_last().push(x.last()));
        assert(y =~= y.drop_last().push(y.last()));
    }
}

/// A line that is made of pieces without a caret holds no caret.
proof fn lemma_no_caret(x: Seq<Seq<char>>)
    requires
        forall|i: int, k: int|
            0 <= i < x.len() && 0 <= k < x[i].len() ==> #[trigger] x[i][k] != '^',
    ensures
        forall|k: int| 0 <= k < x.flatten().len() ==> #[trigger] x.flatten()[k] != '^',
    decreases x.len(),
{
    if x.len() > 0 {
        let front = x.drop_last();
        lemma_no_caret(front);
        front.lemma_flatten_push(x.last());
        assert(x =~= front.push(x.last()));
    }
}

/// The line below the tape is as long as the line of the tape, and holds one
/// caret: in the column in which the symbol under the head starts.
pub proof fn lemma_caret_below_symbol(tape: Seq<Seq<char>>, head: int)
    requires
        0 <= head < tape.len(),
    ensures
        mark_line(tape, head).len() == tape_line(tape).len(),
        column(tape, head) + tape[head].len() < tape_line(tape).len(),
        tape_line(tape).subrange(column(tape, head), column(tape, head) + tape[head].len())
            == tape[head],
        forall|k: int|
            0 <= k < mark_line(tape, head).len() ==> (#[trigger] mark_line(tape, head)[k] == '^'
                <==> k == column(tape, head)),
{
    let shown = cells(tape);
    let below = marks(tape, head);
    lemma_same_lengths(below, shown);
    lemma_same_lengths(below.take(head), shown.take(head));
    assert(shown.take(head) =~= cells(tape.take(head)));

    assert(below =~= below.take(head).push(below[head]) + below.skip(head + 1));
    lemma_flatten_concat(below.take(head).push(below[head]), below.skip(head + 1));
    below.take(head).lemma_flatten_push(below[head]);
    lemma_no_caret(below.take(head));
    lemma_no_caret(below.skip(head + 1));

    assert(shown =~= shown.take(head).push(shown[head]) + shown.skip(head + 1));
    lemma_flatten_concat(shown.take(head).push(shown[head]), shown.skip(head + 1));
    shown.take(head).lemma_flatten_push(shown[head]);
    assert(tape_line(tape) =~= shown.take(head).flatten() + shown[head] + shown.skip(
        head + 1,
    ).flatten());
    assert(tape_line(tape).subrange(column(tape, head), column(tape, head) + tape[head].len())
        =~= tape[head]);
}

/// Appends `n` spaces to `out`.
fn push_spaces(out: &mut String, n: usize)
    ensures
        final(out)@ == old(out)@ + spaces(n as nat),
{
    let mut k: usize = 0;
    while k < n
        invariant
            k <= n,
            out@ == old(out)@ + spaces(k as nat),
        decreases n - k,
    {
        out.push(' ');
        k += 1;
    }
}

/// Shows a machine with the tape `tape`, its head on cell `head`, and in
/// state `state`.
pub fn render(tape: &[String], head: usize, state: &str) -> (r: String)
    ensures
        r@ == rendering(Configuration { tape: views(tape@), head: head as int, state: state@ }),
{
    let ghost symbols = views(tape@);
    let mut out = String::from_str("STATE: ");
    out.append(state);
    out.push('\n');
    let ghost top = out@;
    let ghost shown = cells(symbols);
    let mut i: usize = 0;
    while i < tape.len()
        invariant
            i <= tape.len(),
            symbols == views(tape@),
            shown == cells(symbols),
            out@ == top + shown.take(i as int).flatten(),
        decreases tape.len() - i,
    {
        proof {
            shown.take(i as int).lemma_flatten_push(shown[i as int]);
            assert(shown.take(i + 1) =~= shown.take(i as int).push(shown[i as int]));
        }
        out.append(tape[i].as_str());
        out.push(' ');
        i += 1;
    }
    out.push('\n');
    let ghost middle = out@;
    let ghost below = marks(symbols, head as int);
    i = 0;
    while i < tape.len()
        invariant
            i <= tape.len(),
            symbols == views(tape@),
            below == marks(symbols, head as int),
            out@ == middle + below.take(i as int).flatten(),
        decreases tape.len() - i,
    {
        proof {
            below.take(i as int).lemma_flatten_push(below[i as int]);
            assert(below.take(i + 1) =~= below.take(i as int).push(below[i as int]));
        }
        let width = tape[i].as_str().unicode_len();
        if i == head {
            out.push('^');
            push_spaces(&mut out, width);
        } else {
            push_spaces(&mut out, width);
            out.push(' ');
        }
        i += 1;
    }
    out.push('\n');
    proof {
        assert(shown.take(symbols.len() as int) =~= shown);
        assert(below.take(symbols.len() as int) =~= below);
        assert(out@ =~= rendering(
            Configuration { tape: symbols, head: head as int, state: state@ },
        ));
    }
    out
}

} // verus!
