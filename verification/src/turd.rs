//! The rules of a machine ("turds"), as they are written in a program: one
//! rule per line, five tokens per rule.

use crate::decimal::{decimal, push_decimal};
use crate::error::{Failure, TuringMachineError};
use crate::order::{increasing, insert};
use crate::text::{
    free_of, lemma_split_at_separator, lemma_split_whole, lemma_tokens_are_words, split,
    split_whitespace, tokens, views, whitespace,
};
use vstd::prelude::*;
use vstd::std_specs::convert::TryFromSpecImpl;
use vstd::std_specs::iter::IteratorSpec;
use vstd::string::StringExecFns;

verus! {

/// Where the head goes after a rule was applied.
#[derive(Debug, Clone, Copy, PartialEq, Eq, Structural)]
pub enum Step {
    Left,
    Right,
}

/// The step that a token stands for: `L` for left, `R` for right, and no
/// other token for anything.
pub open spec fn step_of(token: Seq<char>) -> Option<Step> {
    if token == seq!['L'] {
        Some(Step::Left)
    } else if token == seq!['R'] {
        Some(Step::Right)
    } else {
        None
    }
}

/// What is said of a token that stands for no step.
pub open spec fn invalid_step_message(token: Seq<char>) -> Seq<char> {
    token + " is not a valid step. Expected 'L' or 'R'"@
}

/// What is said of line `line` of the program at `path` when it does not
/// hold five tokens.
pub open spec fn token_count_message(path: Seq<char>, line: nat) -> Seq<char> {
    path + seq![':'] + decimal(line) + ": A single turd is expected to have 5 tokens"@
}

impl TryFrom<&str> for Step {
    type Error = TuringMachineError;

    /// Reads a step from its token.
    fn try_from(value: &str) -> (r: Result<Self, TuringMachineError>)
        ensures
            match step_of(value@) {
                Some(step) => r matches Ok(s) && s == step,
                None => r matches Err(e) && e@ == Failure::Transformation(
                    invalid_step_message(value@),
                ),
            },
    {
        let mut it = value.chars();
        let first = it.next();
        let second = it.next();
        proof {
            if value@.len() == 1 {
                assert(value@ =~= seq![value@[0]]);
            }
        }
        match (first, second) {
            (Some('L'), None) => Ok(Step::Left),
            (Some('R'), None) => Ok(Step::Right),
            _ => {
                let mut message = String::from_str(value);
                message.append(" is not a valid step. Expected 'L' or 'R'");
                Err(TuringMachineError::Transformation(message))
            },
        }
    }
}

/// The equation between a call of `try_from` and a spec function is not
/// claimed: the error holds a `String` that the call makes. What `try_from`
/// returns is stated on `try_from` itself.
impl TryFromSpecImpl<&str> for Step {
    open spec fn obeys_try_from_spec() -> bool {
        false
    }

    open spec fn try_from_spec(v: &str) -> Result<Self, TuringMachineError> {
        match step_of(v@) {
            Some(step) => Ok(step),
            None => Err(arbitrary()),
        }
    }
}

/// One rule of a machine.
#[derive(Debug)]
pub struct Turd {
    /// The state in which the rule applies.
    pub current: String,
    /// The symbol under the head with which the rule applies.
    pub read: String,
    /// The symbol that the rule leaves in the cell.
    pub write: String,
    /// Where the head goes.
    pub step: Step,
    /// The state the machine is in afterwards.
    pub next: String,
}

/// A rule with its names as sequences of characters.
pub struct Rule {
    pub current: Seq<char>,
    pub read: Seq<char>,
    pub write: Seq<char>,
    pub step: Step,
    pub next: Seq<char>,
}

impl View for Turd {
    type V = Rule;

    open spec fn view(&self) -> Rule {
        Rule {
            current: self.current@,
            read: self.read@,
            write: self.write@,
            step: self.step,
            next: self.next@,
        }
    }
}

/// The rules that `turds` stand for, in order.
pub open spec fn rules(turds: Seq<Turd>) -> Seq<Rule> {
    turds.map_values(|t: Turd| t@)
}

/// The rule that the tokens `toks` of line `index` (counted from 0) of the
/// program at `path` spell out, or why they spell out none: there are not
/// five of them, or the fourth stands for no step.
pub open spec fn rule_of_tokens(path: Seq<char>, index: nat, toks: Seq<Seq<char>>) -> Result<
    Rule,
    Failure,
> {
    if toks.len() != 5 {
        Err(Failure::Parse(token_count_message(path, index + 1)))
    } else {
        match step_of(toks[3]) {
            None => Err(Failure::Transformation(invalid_step_message(toks[3]))),
            Some(step) => Ok(
                Rule { current: toks[0], read: toks[1], write: toks[2], step, next: toks[4] },
            ),
        }
    }
}

/// The rule that line `index` (counted from 0) of the program at `path`
/// spells out, or why it spells out none.
pub open spec fn parse_rule(path: Seq<char>, index: nat, line: Seq<char>) -> Result<
    Rule,
    Failure,
> {
    rule_of_tokens(path, index, tokens(line))
}

/// The separator of the lines of a program: the line feed.
pub open spec fn newline() -> spec_fn(char) -> bool {
    |c: char| c == '\n'
}

/// The lines that count: those with at least one token.
pub open spec fn has_token() -> spec_fn(Seq<char>) -> bool {
    |line: Seq<char>| tokens(line).len() > 0
}

/// The lines of the program `text` that are not blank, in order.
pub open spec fn rule_lines(text: Seq<char>) -> Seq<Seq<char>> {
    split(text, newline()).filter(has_token())
}

/// Line `k` of `lines` spells out no rule, and every line before it spells
/// out one.
pub open spec fn fails_first_at(path: Seq<char>, lines: Seq<Seq<char>>, k: int) -> bool {
    &&& 0 <= k < lines.len()
    &&& parse_rule(path, k as nat, lines[k]) is Err
    &&& forall|j: int| 0 <= j < k ==> (#[trigger] parse_rule(path, j as nat, lines[j])) is Ok
}

/// The rules of the program `text` at `path`, one for each line that is not
/// blank and in the order of the lines, or what is wrong with the first such
/// line that spells out no rule. Blank lines are left out before the lines
/// are counted.
pub open spec fn parse_program(path: Seq<char>, text: Seq<char>) -> Result<Seq<Rule>, Failure> {
    let lines = rule_lines(text);
    if exists|k: int| fails_first_at(path, lines, k) {
        let k = choose|k: int| fails_first_at(path, lines, k);
        Err(parse_rule(path, k as nat, lines[k])->Err_0)
    } else {
        Ok(Seq::new(lines.len(), |i: int| parse_rule(path, i as nat, lines[i])->Ok_0))
    }
}

/// `name` is the current or the next state of one of `rules`.
pub open spec fn names_state(rules: Seq<Rule>, name: Seq<char>) -> bool {
    exists|i: int| 0 <= i < rules.len() && (#[trigger] rules[i]).is_about(name)
}

impl Rule {
    /// `name` is the state in which the rule applies or the one it leads to.
    pub open spec fn is_about(self, name: Seq<char>) -> bool {
        self.current == name || self.next == name
    }
}

/// `line` holds five tokens, and the fourth stands for a step.
pub open spec fn spells_rule(line: Seq<char>) -> bool {
    tokens(line).len() == 5 && step_of(tokens(line)[3]) is Some
}

/// A line spells out a rule exactly where it holds five tokens of which the
/// fourth stands for a step. The rule then holds the tokens in the order in
/// which they are written, and none of its names is empty or holds
/// whitespace.
pub proof fn lemma_rule_of_line(path: Seq<char>, index: nat, line: Seq<char>)
    ensures
        parse_rule(path, index, line) is Ok <==> spells_rule(line),
        parse_rule(path, index, line) matches Ok(rule) ==> {
            let toks = tokens(line);
            &&& rule.current == toks[0]
            &&& rule.read == toks[1]
            &&& rule.write == toks[2]
            &&& Some(rule.step) == step_of(toks[3])
            &&& rule.next == toks[4]
            &&& rule.current.len() > 0 && free_of(rule.current, whitespace())
            &&& rule.read.len() > 0 && free_of(rule.read, whitespace())
            &&& rule.write.len() > 0 && free_of(rule.write, whitespace())
            &&& rule.next.len() > 0 && free_of(rule.next, whitespace())
        },
{
    lemma_tokens_are_words(line);
}

/// A line that does not hold five tokens gives a parse error, which names
/// the program and the line, counted from 1.
pub proof fn lemma_wrong_token_count(path: Seq<char>, index: nat, line: Seq<char>)
    requires
        tokens(line).len() != 5,
    ensures
        parse_rule(path, index, line) == Err::<Rule, Failure>(
            Failure::Parse(
                path + seq![':'] + decimal(index + 1)
                    + ": A single turd is expected to have 5 tokens"@,
            ),
        ),
{
}

/// A line of five tokens whose fourth is neither `L` nor `R` gives a
/// transformation error, which names that token.
pub proof fn lemma_invalid_step(path: Seq<char>, index: nat, line: Seq<char>)
    requires
        tokens(line).len() == 5,
        tokens(line)[3] != seq!['L'],
        tokens(line)[3] != seq!['R'],
    ensures
        parse_rule(path, index, line) == Err::<Rule, Failure>(
            Failure::Transformation(tokens(line)[3] + " is not a valid step. Expected 'L' or 'R'"@),
        ),
{
}

/// The first line that spells out no rule decides what comes of the
/// program: its error, with its number among the lines that are not blank.
pub proof fn lemma_first_failure(path: Seq<char>, text: Seq<char>, k: int)
    requires
        fails_first_at(path, rule_lines(text), k),
    ensures
        parse_program(path, text) == Err::<Seq<Rule>, Failure>(
            parse_rule(path, k as nat, rule_lines(text)[k])->Err_0,
        ),
{
    let m = choose|m: int| fails_first_at(path, rule_lines(text), m);
    assert(m == k);
}

/// Where a line spells out no rule, there is a first such line.
pub proof fn lemma_some_line_fails_first(path: Seq<char>, lines: Seq<Seq<char>>, i: int)
    requires
        0 <= i < lines.len(),
        parse_rule(path, i as nat, lines[i]) is Err,
    ensures
        exists|k: int| 0 <= k <= i && fails_first_at(path, lines, k),
    decreases i,
{
    if exists|j: int| 0 <= j < i && parse_rule(path, j as nat, lines[j]) is Err {
        let j = choose|j: int| 0 <= j < i && parse_rule(path, j as nat, lines[j]) is Err;
        lemma_some_line_fails_first(path, lines, j);
    } else {
        assert(fails_first_at(path, lines, i));
    }
}

/// A program is read exactly where each of its lines that is not blank
/// spells out a rule. There are then as many rules as such lines, and each
/// rule is the one that its line spells out, in the order of the lines.
pub proof fn lemma_program_of_rules(path: Seq<char>, text: Seq<char>)
    ensures
        parse_program(path, text) is Ok <==> forall|i: int|
            0 <= i < rule_lines(text).len() ==> spells_rule(#[trigger] rule_lines(text)[i]),
        parse_program(path, text) matches Ok(program) ==> {
            &&& program.len() == rule_lines(text).len()
            &&& forall|i: int|
                0 <= i < program.len() ==> parse_rule(path, i as nat, rule_lines(text)[i]) == Ok::<
                    Rule,
                    Failure,
                >(#[trigger] program[i])
        },
{
    let lines = rule_lines(text);
    assert forall|i: int| 0 <= i < lines.len() implies (parse_rule(path, i as nat, lines[i]) is Ok
        <==> spells_rule(#[trigger] lines[i])) by {
        lemma_rule_of_line(path, i as nat, lines[i]);
    }
    if parse_program(path, text) is Ok {
        assert forall|i: int| 0 <= i < lines.len() implies spells_rule(#[trigger] lines[i]) by {
            if parse_rule(path, i as nat, lines[i]) is Err {
                lemma_some_line_fails_first(path, lines, i);
            }
        }
    }
}

/// Where the first line that spells out no rule does not hold five tokens,
/// the program gives a parse error that names this line by its number among
/// the lines that are not blank, counted from 1.
pub proof fn lemma_parse_error_names_line(path: Seq<char>, text: Seq<char>, k: int)
    requires
        0 <= k < rule_lines(text).len(),
        forall|j: int| 0 <= j < k ==> spells_rule(#[trigger] rule_lines(text)[j]),
        tokens(rule_lines(text)[k]).len() != 5,
    ensures
        parse_program(path, text) == Err::<Seq<Rule>, Failure>(
            Failure::Parse(token_count_message(path, (k + 1) as nat)),
        ),
{
    lemma_first_failure(path, text, k);
}

impl Turd {
    /// Makes a rule of the tokens of a line; `index` counts the lines
    /// from 0, and the error names the line counted from 1.
    pub fn from_tokens(filepath: &str, index: usize, toks: Vec<String>) -> (r: Result<
        Self,
        TuringMachineError,
    >)
        ensures
            match rule_of_tokens(filepath@, index as nat, views(toks@)) {
                Ok(rule) => r matches Ok(t) && t@ == rule,
                Err(f) => r matches Err(e) && e@ == f,
            },
    {
        let mut toks = toks;
        if toks.len() != 5 {
            let mut message = String::from_str(filepath);
            message.push(':');
            push_decimal(&mut message, index as u128 + 1);
            message.append(": A single turd is expected to have 5 tokens");
            assert(message@ =~= token_count_message(filepath@, (index + 1) as nat));
            return Err(TuringMachineError::Parse(message));
        }
        let ghost all = views(toks@);
        let next = toks.pop().unwrap();
        let step_token = toks.pop().unwrap();
        let write = toks.pop().unwrap();
        let read = toks.pop().unwrap();
        let current = toks.pop().unwrap();
        assert(current@ == all[0] && read@ == all[1] && write@ == all[2] && step_token@ == all[3]
            && next@ == all[4]);
        match Step::try_from(step_token.as_str()) {
            Ok(step) => Ok(Turd { current, read, write, step, next }),
            Err(e) => Err(e),
        }
    }

    /// Makes a rule of a line of the program at `filepath`. `s` holds the
    /// line's index, counted from 0, and its text.
    pub fn parse_turd(filepath: &str, s: (usize, &str)) -> (r: Result<Self, TuringMachineError>)
        ensures
            match parse_rule(filepath@, s.0 as nat, s.1@) {
                Ok(rule) => r matches Ok(t) && t@ == rule,
                Err(f) => r matches Err(e) && e@ == f,
            },
    {
        Turd::from_tokens(filepath, s.0, split_whitespace(s.1))
    }

    /// Reads the program `content`, which was found at `filepath`: one rule
    /// for each line that is not blank. The first line that spells out no
    /// rule ends the reading with its error.
    pub fn parse_turds(filepath: &str, content: &str) -> (r: Result<Vec<Self>, TuringMachineError>)
        ensures
            match parse_program(filepath@, content@) {
                Ok(program) => r matches Ok(turds) && rules(turds@) == program,
                Err(f) => r matches Err(e) && e@ == f,
            },
    {
        let mut out: Vec<Turd> = Vec::new();
        let mut line = String::new();
        let mut it = content.chars();
        let ghost text = content@;
        let ghost path = filepath@;
        let ghost mut i: int = 0;
        let ghost mut pieces: Seq<Seq<char>> = Seq::empty();
        loop
            invariant
                0 <= i <= text.len(),
                text == content@,
                path == filepath@,
                it.remaining() == text.skip(i),
                free_of(line@, newline()),
                split(text, newline()) == pieces + split(line@ + text.skip(i), newline()),
                out.len() == pieces.filter(has_token()).len(),
                forall|j: int|
                    0 <= j < out.len() ==> parse_rule(
                        path,
                        j as nat,
                        #[trigger] pieces.filter(has_token())[j],
                    ) == Ok::<Rule, Failure>(out[j]@),
            decreases text.len() - i,
        {
            let next = it.next();
            let at_end = next.is_none();
            let ghost rest = text.skip(i + 1);
            if !at_end && next.unwrap() != '\n' {
                proof {
                    assert(line@ + text.skip(i) =~= line@.push(text[i]) + rest);
                }
                line.push(next.unwrap());
            } else {
                let ghost done = pieces.filter(has_token());
                let ghost after = if at_end {
                    Seq::<Seq<char>>::empty()
                } else {
                    split(rest, newline())
                };
                proof {
                    if at_end {
                        lemma_split_whole(line@, newline());
                    } else {
                        assert(line@ + text.skip(i) =~= line@.push('\n') + rest);
                        lemma_split_at_separator(line@, '\n', rest, newline());
                    }
                    assert(split(text, newline()) =~= pieces.push(line@) + after);
                    pieces.lemma_filter_push(line@, has_token());
                    Seq::filter_distributes_over_add(pieces.push(line@), after, has_token());
                }
                let toks = split_whitespace(line.as_str());
                if toks.len() > 0 {
                    let ghost k = done.len() as int;
                    match Turd::from_tokens(filepath, out.len(), toks) {
                        Ok(turd) => {
                            out.push(turd);
                        },
                        Err(e) => {
                            proof {
                                assert(fails_first_at(path, rule_lines(text), k));
                                lemma_first_failure(path, text, k);
                            }
                            return Err(e);
                        },
                    }
                }
                proof {
                    pieces = pieces.push(line@);
                }
                if at_end {
                    proof {
                        let lines = rule_lines(text);
                        assert(rules(out@) =~= Seq::new(
                            lines.len(),
                            |i: int| parse_rule(path, i as nat, lines[i])->Ok_0,
                        ));
                    }
                    return Ok(out);
                }
                line = String::new();
            }
            proof {
                i = i + 1;
            }
        }
    }

    /// The states that the rules speak of, each once and in lexicographic
    /// order.
    pub fn states_of_turds(turds: &[Self]) -> (out: Vec<String>)
        ensures
            increasing(views(out@)),
            forall|name: Seq<char>| #[trigger]
                views(out@).contains(name) <==> names_state(rules(turds@), name),
    {
        let mut out: Vec<String> = Vec::new();
        let mut i: usize = 0;
        while i < turds.len()
            invariant
                i <= turds.len(),
                increasing(views(out@)),
                forall|name: Seq<char>| #[trigger]
                    views(out@).contains(name) <==> names_state(rules(turds@.take(i as int)), name),
            decreases turds.len() - i,
        {
            let ghost seen = rules(turds@.take(i as int));
            let ghost more = rules(turds@.take(i + 1));
            let ghost before = views(out@);
            insert(&mut out, turds[i].current.as_str());
            insert(&mut out, turds[i].next.as_str());
            proof {
                assert forall|name: Seq<char>| #[trigger]
                    views(out@).contains(name) <==> names_state(more, name) by {
                    if names_state(more, name) {
                        let j = choose|j: int|
                            0 <= j < more.len() && (#[trigger] more[j]).is_about(name);
                        if j < i {
                            assert(seen[j].is_about(name));
                        }
                    }
                    if before.contains(name) {
                        let j = choose|j: int|
                            0 <= j < seen.len() && (#[trigger] seen[j]).is_about(name);
                        assert(more[j].is_about(name));
                    }
                    if name == turds[i as int]@.current || name == turds[i as int]@.next {
                        assert(more[i as int].is_about(name));
                    }
                }
            }
            i += 1;
        }
        proof {
            assert(turds@.take(i as int) =~= turds@);
        }
        out
    }
}

} // verus!
