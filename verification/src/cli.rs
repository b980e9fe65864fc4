//! What a command line asks for.
//!
//! The verbs are `list`, `add` and `delete` (or `del`), in any case of
//! letters. Anything that is no complete request asks for the usage help.

use crate::task::{decode_task, delimiter, flag_text, Task, TaskView};
use crate::text::{find_first, find_from, lemma_find_result, matches_at, same_text};
use crate::Serializer;
use vstd::prelude::*;
use vstd::string::*;

verus! {

/// A command and its arguments.
pub struct Cli {
    command: String,
    args: Vec<String>,
}

/// What is to be done for a command line.
#[derive(Debug)]
pub enum Action {
    /// Show every project.
    ListAll,
    /// Show the project of this name.
    List(String),
    /// Put the task at the end of the project of this name, which is
    /// created if there is none.
    Add(String, Task),
    /// Remove the project of this name.
    DeleteProject(String),
    /// Remove the task at this position, counted from one, from the
    /// project of this name.
    DeleteTask(String, usize),
    /// Print the usage help.
    Help,
}

/// An action as plain values.
pub enum ActionView {
    ListAll,
    List(Seq<char>),
    Add(Seq<char>, TaskView),
    DeleteProject(Seq<char>),
    DeleteTask(Seq<char>, nat),
    Help,
}

impl View for Action {
    type V = ActionView;

    open spec fn view(&self) -> ActionView {
        match *self {
            Action::ListAll => ActionView::ListAll,
            Action::List(name) => ActionView::List(name@),
            Action::Add(name, task) => ActionView::Add(name@, task@),
            Action::DeleteProject(name) => ActionView::DeleteProject(name@),
            Action::DeleteTask(name, index) => ActionView::DeleteTask(name@, index as nat),
            Action::Help => ActionView::Help,
        }
    }
}

/// A command line as plain values.
pub struct CliView {
    pub command: Seq<char>,
    pub args: Seq<Seq<char>>,
}

impl View for Cli {
    type V = CliView;

    closed spec fn view(&self) -> CliView {
        CliView { command: self.command@, args: texts(self.args@) }
    }
}

/// The texts of `items`.
pub open spec fn texts(items: Seq<String>) -> Seq<Seq<char>> {
    Seq::new(items.len(), |i: int| items[i]@)
}

/// `s` in lower case, as `str::to_lowercase` gives it.
pub uninterp spec fn lowercase(s: Seq<char>) -> Seq<char>;

/// `str::to_lowercase` of the standard library. Its result follows the
/// Unicode character tables, so it is named and not spelled out.
#[verifier::external_body]
fn to_lowercase(s: &str) -> (lower: String)
    ensures
        lower@ == lowercase(s@),
{
    s.to_lowercase()
}

/// The value of a decimal digit.
pub open spec fn digit_value(c: char) -> Option<nat> {
    if c == '0' {
        Some(0)
    } else if c == '1' {
        Some(1)
    } else if c == '2' {
        Some(2)
    } else if c == '3' {
        Some(3)
    } else if c == '4' {
        Some(4)
    } else if c == '5' {
        Some(5)
    } else if c == '6' {
        Some(6)
    } else if c == '7' {
        Some(7)
    } else if c == '8' {
        Some(8)
    } else if c == '9' {
        Some(9)
    } else {
        None
    }
}

/// Every character of `s` is a decimal digit.
pub open spec fn all_digits(s: Seq<char>) -> bool {
    forall|i: int| 0 <= i < s.len() ==> digit_value(#[trigger] s[i]) is Some
}

/// The number that the digits of `s` write.
pub open spec fn digits_value(s: Seq<char>) -> nat
    decreases s.len(),
{
    if s.len() == 0 {
        0
    } else {
        digits_value(s.drop_last()) * 10 + match digit_value(s.last()) {
            Some(d) => d,
            None => 0,
        }
    }
}

/// The position that `s` writes: one or more decimal digits, after a plus
/// sign or without, whose number fits the machine's word.
pub open spec fn parse_index(s: Seq<char>) -> Option<nat> {
    let digits = if s.len() > 0 && s[0] == '+' {
        s.skip(1)
    } else {
        s
    };
    if digits.len() > 0 && all_digits(digits) && digits_value(digits) <= usize::MAX {
        Some(digits_value(digits))
    } else {
        None
    }
}

/// What `list` asks for.
pub open spec fn list_action(args: Seq<Seq<char>>) -> ActionView {
    if args.len() == 0 {
        ActionView::ListAll
    } else {
        ActionView::List(args[0])
    }
}

/// What `add` asks for. Its first argument is the project's name, the
/// delimiter, and a task's name, description and priority as on a task
/// line; the task is not completed.
pub open spec fn add_action(args: Seq<Seq<char>>) -> ActionView {
    if args.len() == 0 {
        ActionView::Help
    } else {
        let at = find_from(args[0], delimiter(), 0);
        if at < 0 || at + 3 > args[0].len() {
            ActionView::Help
        } else {
            let line = flag_text(false) + delimiter() + args[0].subrange(
                at + 3,
                args[0].len() as int,
            );
            match decode_task(line) {
                None => ActionView::Help,
                Some(task) => ActionView::Add(args[0].subrange(0, at), task),
            }
        }
    }
}

/// What `delete` asks for: with a name, the project; with a name and a
/// position, one task of it.
pub open spec fn delete_action(args: Seq<Seq<char>>) -> ActionView {
    if args.len() == 1 {
        ActionView::DeleteProject(args[0])
    } else if args.len() == 2 {
        match parse_index(args[1]) {
            Some(index) => ActionView::DeleteTask(args[0], index),
            None => ActionView::Help,
        }
    } else {
        ActionView::Help
    }
}

/// What the verb `verb`, already in lower case, asks for with `args`.
pub open spec fn action_for(verb: Seq<char>, args: Seq<Seq<char>>) -> ActionView {
    if verb == seq!['l', 'i', 's', 't'] {
        list_action(args)
    } else if verb == seq!['a', 'd', 'd'] {
        add_action(args)
    } else if verb == seq!['d', 'e', 'l'] || verb == seq!['d', 'e', 'l', 'e', 't', 'e'] {
        delete_action(args)
    } else {
        ActionView::Help
    }
}

/// The command line that the words of a program's invocation make up: the
/// first is the program's own name, the second the command (`help` where
/// there is none), the rest its arguments.
pub open spec fn cli_of(words: Seq<Seq<char>>) -> CliView {
    CliView {
        command: if words.len() >= 2 {
            words[1]
        } else {
            seq!['h', 'e', 'l', 'p']
        },
        args: if words.len() >= 2 {
            words.skip(2)
        } else {
            Seq::empty()
        },
    }
}

fn digit_of(c: char) -> (d: Option<usize>)
    ensures
        match d {
            Some(v) => digit_value(c) == Some(v as nat),
            None => digit_value(c) is None,
        },
{
    if c == '0' {
        Some(0)
    } else if c == '1' {
        Some(1)
    } else if c == '2' {
        Some(2)
    } else if c == '3' {
        Some(3)
    } else if c == '4' {
        Some(4)
    } else if c == '5' {
        Some(5)
    } else if c == '6' {
        Some(6)
    } else if c == '7' {
        Some(7)
    } else if c == '8' {
        Some(8)
    } else if c == '9' {
        Some(9)
    } else {
        None
    }
}

proof fn lemma_digits_grow(s: Seq<char>, n: int)
    requires
        0 <= n <= s.len(),
    ensures
        digits_value(s.take(n)) <= digits_value(s),
    decreases s.len() - n,
{
    if n < s.len() {
        lemma_digits_grow(s, n + 1);
        assert(s.take(n + 1).drop_last() =~= s.take(n));
    } else {
        assert(s.take(n) =~= s);
    }
}

/// The position that `s` writes.
pub fn read_index(s: &str) -> (index: Option<usize>)
    ensures
        match index {
            Some(n) => parse_index(s@) == Some(n as nat),
            None => parse_index(s@) is None,
        },
{
    let n: usize = s.unicode_len();
    let start: usize = if n > 0 && s.get_char(0) == '+' {
        1
    } else {
        0
    };
    if start == n {
        return None;
    }
    let ghost digits = s@.skip(start as int);
    let mut value: usize = 0;
    let mut i: usize = start;
    proof {
        assert(digits.take(0) =~= Seq::<char>::empty());
        assert(s@.skip(0) =~= s@);
    }
    while i < n
        invariant
            start <= i <= n,
            start < n,
            n == s@.len(),
            start == (if s@.len() > 0 && s@[0] == '+' {
                1int
            } else {
                0int
            }),
            digits == s@.skip(start as int),
            value == digits_value(digits.take(i - start)),
            all_digits(digits.take(i - start)),
        decreases n - i,
    {
        let ghost seen = digits.take(i - start);
        let ghost next = digits.take(i + 1 - start);
        proof {
            assert(next.drop_last() =~= seen);
            assert(next.last() == s@[i as int]);
        }
        match digit_of(s.get_char(i)) {
            None => {
                proof {
                    assert(s@.skip(0) =~= s@);
                    assert(digit_value(digits[i - start]) is None);
                }
                return None;
            },
            Some(d) => {
                if value > (usize::MAX - d) / 10 {
                    proof {
                        assert(s@.skip(0) =~= s@);
                        assert(digits_value(next) == value * 10 + d);
                        lemma_digits_grow(digits, i + 1 - start);
                    }
                    return None;
                }
                value = value * 10 + d;
                proof {
                    assert forall|j: int| 0 <= j < next.len() implies digit_value(
                        #[trigger] next[j],
                    ) is Some by {
                        if j < seen.len() {
                            assert(next[j] == seen[j]);
                        }
                    }
                }
            },
        }
        i += 1;
    }
    proof {
        assert(digits.take(n - start) =~= digits);
        assert(s@.skip(0) =~= s@);
    }
    Some(value)
}

fn list_request(args: &Vec<String>) -> (action: Action)
    ensures
        action@ == list_action(texts(args@)),
{
    if args.len() == 0 {
        Action::ListAll
    } else {
        Action::List(args[0].clone())
    }
}

fn add_request(args: &Vec<String>) -> (action: Action)
    ensures
        action@ == add_action(texts(args@)),
{
    if args.len() == 0 {
        return Action::Help;
    }
    proof {
        reveal_strlit(" ` ");
        reveal_strlit("false ` ");
        assert(" ` "@ =~= delimiter());
        assert("false ` "@ =~= flag_text(false) + delimiter());
    }
    let first: &str = args[0].as_str();
    match find_first(first, " ` ") {
        None => Action::Help,
        Some(at) => {
            proof {
                lemma_find_result(first@, delimiter(), 0);
                assert(matches_at(first@, at as int, delimiter()));
                assert(delimiter().len() == 3);
            }
            let len: usize = first.unicode_len();
            let name: &str = first.substring_char(0, at);
            let fields: &str = first.substring_char(at + 3, len);
            let mut line: String = String::from_str("false ` ");
            line.append(fields);
            match Task::deserialize(line.as_str()) {
                None => Action::Help,
                Some(task) => Action::Add(String::from_str(name), task),
            }
        },
    }
}

fn delete_request(args: &Vec<String>) -> (action: Action)
    ensures
        action@ == delete_action(texts(args@)),
{
    if args.len() == 1 {
        Action::DeleteProject(args[0].clone())
    } else if args.len() == 2 {
        match read_index(args[1].as_str()) {
            Some(index) => Action::DeleteTask(args[0].clone(), index),
            None => Action::Help,
        }
    } else {
        Action::Help
    }
}

impl Cli {
    /// The command line of a program invoked with `words`.
    pub fn from_words(words: Vec<String>) -> (cli: Cli)
        ensures
            cli@ == cli_of(texts(words@)),
    {
        if words.len() < 2 {
            proof {
                reveal_strlit("help");
                assert("help"@ =~= seq!['h', 'e', 'l', 'p']);
            }
            let cli = Cli { command: String::from_str("help"), args: Vec::new() };
            proof {
                assert(cli@.args =~= Seq::<Seq<char>>::empty());
            }
            return cli;
        }
        let mut args: Vec<String> = Vec::new();
        let mut i: usize = 2;
        while i < words.len()
            invariant
                2 <= i <= words@.len(),
                args@.len() == i - 2,
                forall|j: int| 0 <= j < args@.len() ==> (#[trigger] args@[j])@ == words@[j + 2]@,
            decreases words@.len() - i,
        {
            args.push(words[i].clone());
            i += 1;
        }
        let cli = Cli { command: words[1].clone(), args };
        proof {
            assert(cli@.args =~= texts(words@).skip(2));
        }
        cli
    }

    /// What the verb `verb`, already in lower case, asks for with `args`.
    pub fn decide(verb: &str, args: &Vec<String>) -> (action: Action)
        ensures
            action@ == action_for(verb@, texts(args@)),
    {
        proof {
            reveal_strlit("list");
            reveal_strlit("add");
            reveal_strlit("del");
            reveal_strlit("delete");
            assert("list"@ =~= seq!['l', 'i', 's', 't']);
            assert("add"@ =~= seq!['a', 'd', 'd']);
            assert("del"@ =~= seq!['d', 'e', 'l']);
            assert("delete"@ =~= seq!['d', 'e', 'l', 'e', 't', 'e']);
        }
        if same_text(verb, "list") {
            list_request(args)
        } else if same_text(verb, "add") {
            add_request(args)
        } else if same_text(verb, "del") || same_text(verb, "delete") {
            delete_request(args)
        } else {
            Action::Help
        }
    }

    /// What this command line asks for: what its command, put in lower
    /// case, asks for with its arguments.
    pub fn run(self) -> (action: Action)
        ensures
            action@ == action_for(lowercase(self@.command), self@.args),
    {
        let verb: String = to_lowercase(self.command.as_str());
        Cli::decide(verb.as_str(), &self.args)
    }
}

} // verus!
