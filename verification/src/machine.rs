//! The machine: a tape that is closed to a ring, a head on one of its cells,
//! and a state. A step applies the first rule that matches.

use crate::render::{render, rendering};
use crate::text::views;
use crate::turd::{names_state, rules, Rule, Step, Turd};
use vstd::prelude::*;

verus! {

/// What a machine holds at one moment, with its symbols and its state as
/// sequences of characters.
pub struct Configuration {
    pub tape: Seq<Seq<char>>,
    pub head: int,
    pub state: Seq<char>,
}

impl Configuration {
    /// The head is on a cell of the tape.
    pub open spec fn wf(self) -> bool {
        0 <= self.head < self.tape.len()
    }

    /// The symbol under the head.
    pub open spec fn symbol(self) -> Seq<char> {
        self.tape[self.head]
    }

    /// The configuration after `rule` was applied: its symbol is written
    /// under the head, then the head moves, and the state is the rule's next.
    pub open spec fn after(self, rule: Rule) -> Configuration {
        Configuration {
            tape: self.tape.update(self.head, rule.write),
            head: moved(self.head, self.tape.len() as int, rule.step),
            state: rule.next,
        }
    }
}

impl Rule {
    /// The rule is for the state of `c` and for the symbol under its head.
    pub open spec fn applies(self, c: Configuration) -> bool {
        self.current == c.state && self.read == c.symbol()
    }
}

/// Where the head is after a step from cell `head` on a tape of `len` cells.
/// The tape is a ring: left of the first cell lies the last, and right of the
/// last lies the first.
pub open spec fn moved(head: int, len: int, step: Step) -> int {
    match step {
        Step::Left => if head == 0 {
            len - 1
        } else {
            head - 1
        },
        Step::Right => if head == len - 1 {
            0
        } else {
            head + 1
        },
    }
}

/// Rule `i` applies to `c`, and none before it does.
pub open spec fn matches_first(rules: Seq<Rule>, c: Configuration, i: int) -> bool {
    &&& 0 <= i < rules.len()
    &&& rules[i].applies(c)
    &&& forall|j: int| 0 <= j < i ==> !(#[trigger] rules[j]).applies(c)
}

/// No rule applies to `c`.
pub open spec fn halted(rules: Seq<Rule>, c: Configuration) -> bool {
    forall|i: int| 0 <= i < rules.len() ==> !(#[trigger] rules[i]).applies(c)
}

/// One step of the machine: the configuration after the first rule that
/// applies to `c`, or nothing where no rule applies.
pub open spec fn step(rules: Seq<Rule>, c: Configuration) -> Option<Configuration> {
    if halted(rules, c) {
        None
    } else {
        Some(c.after(rules[choose|i: int| matches_first(rules, c, i)]))
    }
}

/// The tape is a ring. A step leaves the head on the tape. A step to the
/// right leads to the next index modulo the length of the tape, a step to the
/// left to the index before modulo the length, and each undoes the other.
pub proof fn lemma_head_moves_on_ring(head: int, len: int)
    requires
        0 <= head < len,
    ensures
        0 <= moved(head, len, Step::Left) < len,
        0 <= moved(head, len, Step::Right) < len,
        moved(head, len, Step::Right) == (head + 1) % len,
        moved(head, len, Step::Left) == (head + len - 1) % len,
        moved(moved(head, len, Step::Left), len, Step::Right) == head,
        moved(moved(head, len, Step::Right), len, Step::Left) == head,
{
    if head == len - 1 {
        assert((head + 1) % len == 0) by (nonlinear_arith)
            requires
                head + 1 == len,
                len > 0,
        ;
    } else {
        assert((head + 1) % len == head + 1) by (nonlinear_arith)
            requires
                0 <= head + 1 < len,
        ;
    }
    if head == 0 {
        assert((head + len - 1) % len == len - 1) by (nonlinear_arith)
            requires
                head == 0,
                len > 0,
        ;
    } else {
        assert((head + len - 1) % len == head - 1) by (nonlinear_arith)
            requires
                0 < head < len,
        ;
    }
}

/// A step keeps the head on the tape and the tape at its length, and
/// changes no cell but the one the head was on.
pub proof fn lemma_step_keeps_tape(rules: Seq<Rule>, c: Configuration)
    requires
        c.wf(),
    ensures
        step(rules, c) matches Some(d) ==> {
            &&& d.wf()
            &&& d.tape.len() == c.tape.len()
            &&& forall|i: int| 0 <= i < c.tape.len() && i != c.head ==> d.tape[i] == c.tape[i]
        },
{
    lemma_head_moves_on_ring(c.head, c.tape.len() as int);
}

/// A step writes the symbol of the first rule that applies under the head,
/// takes that rule's next state, and moves the head by one cell on the ring:
/// to the left from the first cell to the last and from any other cell to the
/// one before it, to the right from the last cell to the first and from any
/// other cell to the one after it.
pub proof fn lemma_step_moves_head(rules: Seq<Rule>, c: Configuration, i: int)
    requires
        c.wf(),
        matches_first(rules, c, i),
    ensures
        step(rules, c) matches Some(d) && {
            &&& d.tape == c.tape.update(c.head, rules[i].write)
            &&& d.state == rules[i].next
            &&& rules[i].step == Step::Left && c.head == 0 ==> d.head == c.tape.len() - 1
            &&& rules[i].step == Step::Left && c.head > 0 ==> d.head == c.head - 1
            &&& rules[i].step == Step::Right && c.head == c.tape.len() - 1 ==> d.head == 0
            &&& rules[i].step == Step::Right && c.head < c.tape.len() - 1 ==> d.head == c.head + 1
        },
{
    lemma_first_match_wins(rules, c, i);
}

/// Where some rule applies, one of them is the first.
pub proof fn lemma_some_rule_matches_first(rules: Seq<Rule>, c: Configuration, i: int)
    requires
        0 <= i < rules.len(),
        rules[i].applies(c),
    ensures
        exists|k: int| 0 <= k <= i && matches_first(rules, c, k),
    decreases i,
{
    if exists|j: int| 0 <= j < i && (#[trigger] rules[j]).applies(c) {
        let j = choose|j: int| 0 <= j < i && (#[trigger] rules[j]).applies(c);
        lemma_some_rule_matches_first(rules, c, j);
    } else {
        assert(matches_first(rules, c, i));
    }
}

/// The first rule that applies is the one that is applied, whatever
/// follows it in the table.
pub proof fn lemma_first_match_wins(rules: Seq<Rule>, c: Configuration, i: int)
    requires
        matches_first(rules, c, i),
    ensures
        step(rules, c) == Some(c.after(rules[i])),
{
    let k = choose|k: int| matches_first(rules, c, k);
    assert(k == i);
}

/// A rule that stands behind another one for the same state and the same
/// symbol is never the one that is applied.
pub proof fn lemma_later_duplicate_is_dead(rules: Seq<Rule>, i: int, j: int, c: Configuration)
    requires
        0 <= i < j < rules.len(),
        rules[i].current == rules[j].current,
        rules[i].read == rules[j].read,
    ensures
        !matches_first(rules, c, j),
        rules[j].applies(c) ==> exists|k: int|
            0 <= k <= i && step(rules, c) == Some(c.after(rules[k])),
{
    if rules[j].applies(c) {
        lemma_some_rule_matches_first(rules, c, i);
        let k = choose|k: int| 0 <= k <= i && matches_first(rules, c, k);
        lemma_first_match_wins(rules, c, k);
    }
}

/// The machine halts exactly where no rule is for its state and for the
/// symbol under its head. Where it does not halt, a step applies the first
/// rule that is.
pub proof fn lemma_halts_without_match(rules: Seq<Rule>, c: Configuration)
    ensures
        step(rules, c) is None <==> forall|i: int|
            0 <= i < rules.len() ==> !((#[trigger] rules[i]).current == c.state && rules[i].read
                == c.tape[c.head]),
        step(rules, c) is Some ==> exists|k: int|
            matches_first(rules, c, k) && step(rules, c) == Some(c.after(rules[k])),
{
    if !halted(rules, c) {
        let i = choose|i: int| 0 <= i < rules.len() && (#[trigger] rules[i]).applies(c);
        lemma_some_rule_matches_first(rules, c, i);
        let k = choose|k: int| 0 <= k <= i && matches_first(rules, c, k);
        lemma_first_match_wins(rules, c, k);
    }
}

/// A machine in a state that no rule speaks of halts at once.
pub proof fn lemma_unknown_state_halts(rules: Seq<Rule>, c: Configuration)
    requires
        !names_state(rules, c.state),
    ensures
        step(rules, c) is None,
{
    assert forall|i: int| 0 <= i < rules.len() implies !(#[trigger] rules[i]).applies(c) by {
        if rules[i].applies(c) {
            assert(rules[i].is_about(c.state));
        }
    }
}

/// A machine. Its head is always on a cell of its tape, so the tape is never
/// empty.
#[derive(Debug)]
pub struct Machine {
    tape: Vec<String>,
    head: usize,
    state: String,
}

impl View for Machine {
    type V = Configuration;

    closed spec fn view(&self) -> Configuration {
        Configuration { tape: views(self.tape@), head: self.head as int, state: self.state@ }
    }
}

impl Machine {
    #[verifier::type_invariant]
    spec fn head_on_tape(&self) -> bool {
        self.head < self.tape.len()
    }

    /// A machine in state `state` with its head on the first cell of `tape`.
    /// There is no machine with an empty tape.
    pub fn new(tape: Vec<String>, state: String) -> (r: Option<Self>)
        ensures
            match r {
                Some(m) => tape.len() > 0 && m@ == (Configuration {
                    tape: views(tape@),
                    head: 0,
                    state: state@,
                }),
                None => tape.len() == 0,
            },
    {
        if tape.len() == 0 {
            None
        } else {
            Some(Machine { tape, head: 0, state })
        }
    }

    /// The cells of the tape.
    pub fn tape(&self) -> (r: &[String])
        ensures
            views(r@) == self@.tape,
    {
        self.tape.as_slice()
    }

    /// The index of the cell that the head is on.
    pub fn head(&self) -> (r: usize)
        ensures
            r == self@.head,
            self@.wf(),
    {
        proof {
            use_type_invariant(self);
        }
        self.head
    }

    /// The state that the machine is in.
    pub fn state(&self) -> (r: &str)
        ensures
            r@ == self@.state,
    {
        self.state.as_str()
    }

    /// The machine as text, for display: a line with the state, a line with
    /// the symbols of the tape, and a line with a caret below the symbol
    /// under the head.
    pub fn render(&self) -> (r: String)
        ensures
            r@ == rendering(self@),
    {
        render(self.tape.as_slice(), self.head, self.state.as_str())
    }

    /// Makes one step: applies the first of the rules of `program` that is
    /// for the machine's state and for the symbol under its head. Returns
    /// whether there was such a rule; where there was none, the machine has
    /// halted and is left as it was.
    pub fn next(&mut self, program: &[Turd]) -> (stepped: bool)
        ensures
            stepped == !halted(rules(program@), old(self)@),
            match step(rules(program@), old(self)@) {
                Some(c) => final(self)@ == c,
                None => final(self)@ == old(self)@,
            },
    {
        proof {
            use_type_invariant(&*self);
        }
        let ghost table = rules(program@);
        let ghost c = self@;
        let mut i: usize = 0;
        while i < program.len()
            invariant
                i <= program.len(),
                table == rules(program@),
                *self == *old(self),
                c == self@,
                self.head < self.tape.len(),
                forall|j: int| 0 <= j < i ==> !(#[trigger] table[j]).applies(c),
            decreases program.len() - i,
        {
            let turd = &program[i];
            if turd.current == self.state && turd.read == self.tape[self.head] {
                proof {
                    lemma_first_match_wins(table, c, i as int);
                }
                let len = self.tape.len();
                let at = self.head;
                proof {
                    lemma_head_moves_on_ring(at as int, len as int);
                }
                let to = match turd.step {
                    Step::Left => if at == 0 {
                        len - 1
                    } else {
                        at - 1
                    },
                    Step::Right => (at + 1) % len,
                };
                self.tape[at] = turd.write.clone();
                self.head = to;
                self.state = turd.next.clone();
                proof {
                    assert(self@.tape =~= c.after(turd@).tape);
                }
                return true;
            }
            i += 1;
        }
        false
    }
}

} // verus!
