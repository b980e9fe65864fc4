//! Priorities, tasks and projects, and the text format they are stored in.
//!
//! A task is one line of four fields joined by the delimiter: completion,
//! name, description, priority. A project is its name on the first line
//! and one task on each line after it.

use crate::text::{
    ends_with, lemma_split_head, lemma_split_single, matches_at, occurs_in, same_text,
    split, split_text,
};
use crate::Serializer;
use vstd::prelude::*;
use vstd::string::*;

verus! {

/// How urgent a task is.
#[derive(Debug, Clone, Copy, PartialEq, Eq, Structural)]
pub enum Priority {
    High,
    Medium,
    Low,
}

/// What a task is, as plain values.
pub struct TaskView {
    pub name: Seq<char>,
    pub description: Seq<char>,
    pub priority: Priority,
    pub is_completed: bool,
}

/// What a project is, as plain values.
pub struct ProjectView {
    pub name: Seq<char>,
    pub tasks: Seq<TaskView>,
}

/// A unit of work.
#[derive(Debug)]
pub struct Task {
    name: String,
    description: String,
    priority: Priority,
    is_completed: bool,
}

/// A named, ordered list of tasks.
#[derive(Debug)]
pub struct Project {
    name: String,
    tasks: Vec<Task>,
}

impl View for Task {
    type V = TaskView;

    closed spec fn view(&self) -> TaskView {
        TaskView {
            name: self.name@,
            description: self.description@,
            priority: self.priority,
            is_completed: self.is_completed,
        }
    }
}

impl View for Project {
    type V = ProjectView;

    closed spec fn view(&self) -> ProjectView {
        ProjectView {
            name: self.name@,
            tasks: Seq::new(self.tasks@.len(), |i: int| self.tasks@[i]@),
        }
    }
}

/// The text that separates the fields of a task line.
pub open spec fn delimiter() -> Seq<char> {
    seq![' ', '`', ' ']
}

/// The text that separates the lines of a project.
pub open spec fn line_break() -> Seq<char> {
    seq!['\n']
}

/// The text of a completion flag.
pub open spec fn flag_text(flag: bool) -> Seq<char> {
    if flag {
        seq!['t', 'r', 'u', 'e']
    } else {
        seq!['f', 'a', 'l', 's', 'e']
    }
}

/// The text of a priority.
pub open spec fn priority_text(p: Priority) -> Seq<char> {
    match p {
        Priority::High => seq!['H', 'i', 'g', 'h'],
        Priority::Medium => seq!['M', 'e', 'd', 'i', 'u', 'm'],
        Priority::Low => seq!['L', 'o', 'w'],
    }
}

/// The priority that `s` is the text of.
pub open spec fn decode_priority(s: Seq<char>) -> Option<Priority> {
    if s == priority_text(Priority::High) {
        Some(Priority::High)
    } else if s == priority_text(Priority::Medium) {
        Some(Priority::Medium)
    } else if s == priority_text(Priority::Low) {
        Some(Priority::Low)
    } else {
        None
    }
}

/// The line of a task.
pub open spec fn encode_task(t: TaskView) -> Seq<char> {
    flag_text(t.is_completed) + delimiter() + t.name + delimiter() + t.description + delimiter()
        + priority_text(t.priority)
}

/// The task that `line` holds: its first four fields, the fourth a priority.
/// Any first field but `true` stands for a task that is not completed.
pub open spec fn decode_task(line: Seq<char>) -> Option<TaskView> {
    let parts = split(line, delimiter());
    if parts.len() < 4 {
        None
    } else {
        match decode_priority(parts[3]) {
            None => None,
            Some(priority) => Some(
                TaskView {
                    name: parts[1],
                    description: parts[2],
                    priority,
                    is_completed: parts[0] == flag_text(true),
                },
            ),
        }
    }
}

/// The lines of `tasks`, each after a line break.
pub open spec fn task_lines(tasks: Seq<TaskView>) -> Seq<char>
    decreases tasks.len(),
{
    if tasks.len() == 0 {
        Seq::empty()
    } else {
        line_break() + encode_task(tasks[0]) + task_lines(tasks.skip(1))
    }
}

/// The text of a project: its name, then one line for each task.
pub open spec fn encode_project(p: ProjectView) -> Seq<char> {
    p.name + task_lines(p.tasks)
}

/// The project that `src` holds, if every line after the first holds a task.
pub open spec fn decode_project(src: Seq<char>) -> Option<ProjectView> {
    let lines = split(src, line_break());
    if forall|i: int| 1 <= i < lines.len() ==> decode_task(#[trigger] lines[i]) is Some {
        Some(
            ProjectView {
                name: lines[0],
                tasks: Seq::new(
                    (lines.len() - 1) as nat,
                    |i: int| decode_task(lines[i + 1]).unwrap(),
                ),
            },
        )
    } else {
        None
    }
}

impl Serializer for Priority {
    type Type = Priority;

    fn serialize(self) -> (out: String)
        ensures
            out@ == priority_text(self),
    {
        proof {
            reveal_strlit("High");
            reveal_strlit("Medium");
            reveal_strlit("Low");
        }
        let out = match self {
            Priority::High => String::from_str("High"),
            Priority::Medium => String::from_str("Medium"),
            Priority::Low => String::from_str("Low"),
        };
        proof {
            assert(out@ =~= priority_text(self));
        }
        out
    }

    fn deserialize(src: &str) -> (found: Option<Priority>)
        ensures
            found == decode_priority(src@),
    {
        proof {
            reveal_strlit("High");
            reveal_strlit("Medium");
            reveal_strlit("Low");
            assert("High"@ =~= priority_text(Priority::High));
            assert("Medium"@ =~= priority_text(Priority::Medium));
            assert("Low"@ =~= priority_text(Priority::Low));
        }
        if same_text(src, "High") {
            Some(Priority::High)
        } else if same_text(src, "Medium") {
            Some(Priority::Medium)
        } else if same_text(src, "Low") {
            Some(Priority::Low)
        } else {
            None
        }
    }
}

impl Task {
    /// A task that is not completed yet.
    pub fn new(name: String, description: String, priority: Priority) -> (task: Task)
        ensures
            task@ == (TaskView {
                name: name@,
                description: description@,
                priority,
                is_completed: false,
            }),
    {
        Task { name, description, priority, is_completed: false }
    }

    pub fn name(&self) -> (name: &str)
        ensures
            name@ == self@.name,
    {
        self.name.as_str()
    }

    pub fn description(&self) -> (description: &str)
        ensures
            description@ == self@.description,
    {
        self.description.as_str()
    }

    pub fn priority(&self) -> (priority: &Priority)
        ensures
            *priority == self@.priority,
    {
        &self.priority
    }

    pub fn is_completed(&self) -> (flag: bool)
        ensures
            flag == self@.is_completed,
    {
        self.is_completed
    }

    /// The line that holds the task.
    pub fn encode(&self) -> (line: String)
        ensures
            line@ == encode_task(self@),
    {
        proof {
            reveal_strlit("true");
            reveal_strlit("false");
            reveal_strlit(" ` ");
            assert("true"@ =~= flag_text(true));
            assert("false"@ =~= flag_text(false));
            assert(" ` "@ =~= delimiter());
        }
        let mut line: String = if self.is_completed {
            String::from_str("true")
        } else {
            String::from_str("false")
        };
        line.append(" ` ");
        line.append(self.name.as_str());
        line.append(" ` ");
        line.append(self.description.as_str());
        line.append(" ` ");
        let level: String = self.priority.serialize();
        line.append(level.as_str());
        line
    }
}

impl Serializer for Task {
    type Type = Task;

    fn serialize(self) -> (line: String)
        ensures
            line@ == encode_task(self@),
    {
        self.encode()
    }

    fn deserialize(src: &str) -> (found: Option<Task>)
        ensures
            match found {
                Some(task) => decode_task(src@) == Some(task@),
                None => decode_task(src@) is None,
            },
    {
        proof {
            reveal_strlit("true");
            reveal_strlit(" ` ");
            assert("true"@ =~= flag_text(true));
            assert(" ` "@ =~= delimiter());
        }
        let parts: Vec<String> = split_text(src, " ` ");
        if parts.len() < 4 {
            return None;
        }
        let is_completed: bool = same_text(parts[0].as_str(), "true");
        match Priority::deserialize(parts[3].as_str()) {
            None => None,
            Some(priority) => {
                let name: String = parts[1].clone();
                let description: String = parts[2].clone();
                Some(Task { name, description, priority, is_completed })
            },
        }
    }
}

impl Project {
    /// A project without tasks.
    pub fn new(name: String) -> (project: Project)
        ensures
            project@ == (ProjectView { name: name@, tasks: Seq::empty() }),
    {
        let project = Project { name, tasks: Vec::new() };
        proof {
            assert(project@.tasks =~= Seq::empty());
        }
        project
    }

    pub fn name(&self) -> (name: &str)
        ensures
            name@ == self@.name,
    {
        self.name.as_str()
    }

    pub fn tasks(&self) -> (tasks: &Vec<Task>)
        ensures
            tasks@.len() == self@.tasks.len(),
            forall|i: int| 0 <= i < tasks@.len() ==> (#[trigger] tasks@[i])@ == self@.tasks[i],
    {
        &self.tasks
    }

    /// Puts `task` after the tasks that the project holds.
    pub fn add_task(&mut self, task: Task)
        ensures
            final(self)@ == (ProjectView {
                name: old(self)@.name,
                tasks: old(self)@.tasks.push(task@),
            }),
    {
        self.tasks.push(task);
        proof {
            assert(self@.tasks =~= old(self)@.tasks.push(task@));
        }
    }

    /// Takes out the task at position `index`, counted from one, and
    /// returns it; a position that the project does not have takes out
    /// nothing.
    pub fn remove_task(&mut self, index: usize) -> (removed: Option<Task>)
        ensures
            final(self)@.name == old(self)@.name,
            1 <= index <= old(self)@.tasks.len() ==> removed is Some && removed.unwrap()@ == old(
                self,
            )@.tasks[index - 1] && final(self)@.tasks == old(self)@.tasks.remove(index - 1),
            !(1 <= index <= old(self)@.tasks.len()) ==> removed is None && final(self)@ == old(
                self,
            )@,
    {
        if index < 1 || index > self.tasks.len() {
            return None;
        }
        let task: Task = self.tasks.remove(index - 1);
        proof {
            assert(self@.tasks =~= old(self)@.tasks.remove(index - 1));
        }
        Some(task)
    }

    /// The text of this project.
    pub fn encode(&self) -> (out: String)
        ensures
            out@ == encode_project(self@),
    {
        let mut out: String = self.name.clone();
        let n: usize = self.tasks.len();
        let mut i: usize = 0;
        proof {
            assert(self@.tasks.subrange(0, n as int) =~= self@.tasks);
        }
        while i < n
            invariant
                i <= n,
                n == self.tasks@.len(),
                n == self@.tasks.len(),
                out@ + task_lines(self@.tasks.subrange(i as int, n as int)) == encode_project(
                    self@,
                ),
            decreases n - i,
        {
            proof {
                reveal_strlit("\n");
                assert("\n"@ =~= line_break());
            }
            let line: String = self.tasks[i].encode();
            proof {
                let rest = self@.tasks.subrange(i as int, n as int);
                assert(rest[0] == self.tasks@[i as int]@);
                assert(rest.skip(1) =~= self@.tasks.subrange(i + 1, n as int));
                assert(out@ + task_lines(rest) =~= out@ + line_break() + line@ + task_lines(
                    rest.skip(1),
                ));
            }
            out.append("\n");
            out.append(line.as_str());
            i += 1;
        }
        proof {
            assert(out@ + task_lines(self@.tasks.subrange(n as int, n as int)) =~= out@);
        }
        out
    }
}

impl Serializer for Project {
    type Type = Project;

    fn serialize(self) -> (out: String)
        ensures
            out@ == encode_project(self@),
    {
        self.encode()
    }

    fn deserialize(src: &str) -> (found: Option<Project>)
        ensures
            match found {
                Some(project) => decode_project(src@) == Some(project@),
                None => decode_project(src@) is None,
            },
    {
        proof {
            reveal_strlit("\n");
            assert("\n"@ =~= line_break());
        }
        let lines: Vec<String> = split_text(src, "\n");
        let ghost model = split(src@, line_break());
        let n: usize = lines.len();
        let name: String = lines[0].clone();
        let mut tasks: Vec<Task> = Vec::new();
        let mut i: usize = 1;
        while i < n
            invariant
                1 <= i <= n,
                n == lines@.len(),
                n == model.len(),
                model == split(src@, line_break()),
                forall|k: int| 0 <= k < n ==> (#[trigger] lines@[k])@ == model[k],
                tasks@.len() == i - 1,
                forall|k: int|
                    1 <= k < i ==> decode_task(#[trigger] model[k]) == Some(tasks@[k - 1]@),
            decreases n - i,
        {
            match Task::deserialize(lines[i].as_str()) {
                None => {
                    return None;
                },
                Some(task) => {
                    tasks.push(task);
                },
            }
            i += 1;
        }
        let project = Project { name, tasks };
        proof {
            assert(project@.tasks =~= decode_project(src@).unwrap().tasks);
        }
        Some(project)
    }
}

/// A field that a task line gives back as it was: the delimiter does not
/// occur in it, and it does not end with the delimiter's first two
/// characters (which the delimiter after it would complete).
pub open spec fn field_survives(f: Seq<char>) -> bool {
    !occurs_in(f, delimiter()) && !ends_with(f, seq![' ', '`'])
}

/// No character of `s` is a line break.
pub open spec fn single_line(s: Seq<char>) -> bool {
    forall|i: int| 0 <= i < s.len() ==> s[i] != '\n'
}

/// A task whose line gives it back.
pub open spec fn task_survives(t: TaskView) -> bool {
    field_survives(t.name) && field_survives(t.description)
}

/// A task whose line is a single line.
pub open spec fn task_single_line(t: TaskView) -> bool {
    single_line(t.name) && single_line(t.description)
}

proof fn lemma_blank_free_survives(f: Seq<char>)
    requires
        forall|i: int| 0 <= i < f.len() ==> f[i] != ' ',
    ensures
        field_survives(f),
{
    assert forall|i: int| !matches_at(f, i, delimiter()) by {
        if matches_at(f, i, delimiter()) {
            assert(f.subrange(i, i + 3)[0] == ' ');
        }
    }
    if ends_with(f, seq![' ', '`']) {
        assert(f.subrange(f.len() - 2, f.len() as int)[0] == ' ');
    }
}

proof fn lemma_no_early_delimiter(head: Seq<char>, rest: Seq<char>)
    requires
        field_survives(head),
    ensures
        forall|j: int|
            0 <= j < head.len() ==> !matches_at(head + delimiter() + rest, j, delimiter()),
{
    let s = head + delimiter() + rest;
    let n = head.len() as int;
    assert forall|j: int| 0 <= j < n implies !matches_at(s, j, delimiter()) by {
        if matches_at(s, j, delimiter()) {
            let found = s.subrange(j, j + 3);
            assert(found[0] == ' ' && found[1] == '`' && found[2] == ' ');
            if j + 3 <= n {
                assert(head.subrange(j, j + 3) =~= found);
                assert(matches_at(head, j, delimiter()));
            } else if j + 2 == n {
                assert(head.subrange(n - 2, n) =~= seq![' ', '`']);
            } else {
                assert(s[j + 1] == delimiter()[0]);
            }
        }
    }
}

/// Decoding the line of a task gives the task back, if the delimiter does
/// not occur in its name or description and neither ends with a blank and a
/// backtick.
pub proof fn lemma_task_round_trip(t: TaskView)
    requires
        task_survives(t),
    ensures
        decode_task(encode_task(t)) == Some(t),
{
    let d = delimiter();
    let flag = flag_text(t.is_completed);
    let level = priority_text(t.priority);
    let tail2 = t.description + d + level;
    let tail1 = t.name + d + tail2;
    lemma_blank_free_survives(flag);
    lemma_blank_free_survives(level);
    lemma_no_early_delimiter(flag, tail1);
    lemma_no_early_delimiter(t.name, tail2);
    lemma_no_early_delimiter(t.description, level);
    assert(encode_task(t) =~= flag + d + tail1);
    lemma_split_head(flag, d, tail1);
    lemma_split_head(t.name, d, tail2);
    lemma_split_head(t.description, d, level);
    lemma_split_single(level, d);
    let parts = split(encode_task(t), d);
    assert(parts =~= seq![flag, t.name, t.description, level]);
    assert(flag_text(false).len() != flag_text(true).len());
    assert(priority_text(Priority::High).len() == 4);
    assert(priority_text(Priority::Medium).len() == 6);
    assert(priority_text(Priority::Low).len() == 3);
}

proof fn lemma_task_line_single(t: TaskView)
    requires
        task_single_line(t),
    ensures
        single_line(encode_task(t)),
{
}

proof fn lemma_split_lines(first: Seq<char>, tasks: Seq<TaskView>)
    requires
        single_line(first),
        forall|i: int| 0 <= i < tasks.len() ==> task_single_line(#[trigger] tasks[i]),
    ensures
        split(first + task_lines(tasks), line_break()) == seq![first] + Seq::new(
            tasks.len(),
            |i: int| encode_task(tasks[i]),
        ),
    decreases tasks.len(),
{
    let nl = line_break();
    if tasks.len() == 0 {
        assert(first + task_lines(tasks) =~= first);
        assert forall|j: int| !matches_at(first, j, nl) by {
            if matches_at(first, j, nl) {
                assert(first.subrange(j, j + 1)[0] == '\n');
            }
        }
        lemma_split_single(first, nl);
        assert(seq![first] =~= seq![first] + Seq::new(tasks.len(), |i: int| encode_task(tasks[i])));
    } else {
        let line = encode_task(tasks[0]);
        let rest = line + task_lines(tasks.skip(1));
        let s = first + nl + rest;
        assert(first + task_lines(tasks) =~= s);
        assert forall|j: int| 0 <= j < first.len() implies !matches_at(s, j, nl) by {
            if matches_at(s, j, nl) {
                assert(s.subrange(j, j + 1)[0] == '\n');
            }
        }
        lemma_split_head(first, nl, rest);
        lemma_task_line_single(tasks[0]);
        assert forall|i: int| 0 <= i < tasks.skip(1).len() implies task_single_line(
            #[trigger] tasks.skip(1)[i],
        ) by {
            assert(tasks.skip(1)[i] == tasks[i + 1]);
        }
        lemma_split_lines(line, tasks.skip(1));
        assert(seq![first] + (seq![line] + Seq::new(
            tasks.skip(1).len(),
            |i: int| encode_task(tasks.skip(1)[i]),
        )) =~= seq![first] + Seq::new(tasks.len(), |i: int| encode_task(tasks[i])));
    }
}

/// Decoding the text of a project gives the project back, if its name and
/// the fields of its tasks hold no line break and every task is one that
/// its own line gives back.
pub proof fn lemma_project_round_trip(p: ProjectView)
    requires
        single_line(p.name),
        forall|i: int|
            0 <= i < p.tasks.len() ==> task_single_line(#[trigger] p.tasks[i]) && task_survives(
                p.tasks[i],
            ),
    ensures
        decode_project(encode_project(p)) == Some(p),
{
    lemma_split_lines(p.name, p.tasks);
    let lines = split(encode_project(p), line_break());
    assert forall|i: int| 1 <= i < lines.len() implies decode_task(#[trigger] lines[i]) == Some(
        p.tasks[i - 1],
    ) by {
        lemma_task_round_trip(p.tasks[i - 1]);
    }
    assert(decode_project(encode_project(p)).unwrap().tasks =~= p.tasks);
}

/// A project is decoded whole or not at all: where one line after the first
/// holds no task, there is no project.
pub proof fn lemma_bad_line_fails(src: Seq<char>, i: int)
    requires
        1 <= i < split(src, line_break()).len(),
        decode_task(split(src, line_break())[i]) is None,
    ensures
        decode_project(src) is None,
{
}

} // verus!
