//! Output names for a batch of inputs: the name of the input file, or, where
//! that is taken, the same name with a numeric suffix before the extension.

use vstd::prelude::*;
use vstd::string::StrSliceExecFns;
use vstd::string::StringExecFns;

verus! {

/// The suffixes that are tried are `_0` to `_999`.
pub const MAX_SUFFIXES: u32 = 1000;

/// The index of the last `.` of a file name, if it has one.
pub open spec fn last_dot(name: Seq<char>) -> Option<int>
    decreases name.len(),
{
    if name.len() == 0 {
        None
    } else if name.last() == '.' {
        Some(name.len() - 1)
    } else {
        last_dot(name.drop_last())
    }
}

/// Where a file name is cut into stem and extension: at its last `.`, unless
/// it has none, begins with its only one, or is `..`.
pub open spec fn cut_of(name: Seq<char>) -> Option<int> {
    match last_dot(name) {
        Some(i) => if i == 0 || name == seq!['.', '.'] {
            None
        } else {
            Some(i)
        },
        None => None,
    }
}

/// The file name without its extension.
pub open spec fn stem_of(name: Seq<char>) -> Seq<char> {
    match cut_of(name) {
        Some(i) => name.take(i),
        None => name,
    }
}

/// The extension of a file name, without the dot; none where the name is not cut.
pub open spec fn extension_of(name: Seq<char>) -> Option<Seq<char>> {
    match cut_of(name) {
        Some(i) => Some(name.skip(i + 1)),
        None => None,
    }
}

/// The character of a decimal digit.
pub open spec fn digit(d: nat) -> char {
    ((48 + d) as u8) as char
}

/// The decimal digits of a number, without leading zeros.
pub open spec fn decimal(n: nat) -> Seq<char>
    decreases n,
{
    if n < 10 {
        seq![digit(n)]
    } else {
        decimal(n / 10).push(digit(n % 10))
    }
}

/// The name with suffix `i`: stem, `_`, the number, and the extension as it was.
pub open spec fn candidate(name: Seq<char>, i: nat) -> Seq<char> {
    stem_of(name) + seq!['_'] + decimal(i) + match extension_of(name) {
        Some(e) => seq!['.'] + e,
        None => Seq::empty(),
    }
}

/// The smallest suffix from `from` on whose name is not taken.
pub open spec fn first_free(name: Seq<char>, taken: Seq<Seq<char>>, from: nat) -> Option<nat>
    decreases MAX_SUFFIXES - from,
{
    if from >= MAX_SUFFIXES {
        None
    } else if !taken.contains(candidate(name, from)) {
        Some(from)
    } else {
        first_free(name, taken, from + 1)
    }
}

/// The output name for an input file name, given the names that exist in the
/// output directory: the name itself where it is free, else the name with the
/// smallest free suffix, and none where all suffixes are taken.
pub open spec fn resolve_spec(name: Seq<char>, taken: Seq<Seq<char>>) -> Option<Seq<char>> {
    if !taken.contains(name) {
        Some(name)
    } else {
        match first_free(name, taken, 0) {
            Some(i) => Some(candidate(name, i)),
            None => None,
        }
    }
}

fn digit_str(d: u32) -> (s: &'static str)
    requires
        d < 10,
    ensures
        s@ == seq![digit(d as nat)],
{
    proof {
        reveal_strlit("0");
        reveal_strlit("1");
        reveal_strlit("2");
        reveal_strlit("3");
        reveal_strlit("4");
        reveal_strlit("5");
        reveal_strlit("6");
        reveal_strlit("7");
        reveal_strlit("8");
        reveal_strlit("9");
    }
    let s = match d {
        0 => "0",
        1 => "1",
        2 => "2",
        3 => "3",
        4 => "4",
        5 => "5",
        6 => "6",
        7 => "7",
        8 => "8",
        _ => "9",
    };
    assert(s@ =~= seq![digit(d as nat)]);
    s
}

/// The number in decimal.
pub fn decimal_string(n: u32) -> (s: String)
    ensures
        s@ == decimal(n as nat),
    decreases n,
{
    if n < 10 {
        String::from_str(digit_str(n))
    } else {
        let mut s = decimal_string(n / 10);
        s.append(digit_str(n % 10));
        assert(s@ =~= decimal(n as nat));
        s
    }
}

/// Cuts a file name into its stem and, where it has one, its extension.
pub fn split_file_name(name: &str) -> (r: (String, Option<String>))
    ensures
        r.0@ == stem_of(name@),
        r.1.deep_view() == extension_of(name@),
{
    let n = name.unicode_len();
    let mut dot: Option<usize> = None;
    let mut i: usize = 0;
    while i < n
        invariant
            i <= n,
            n == name@.len(),
            match dot {
                Some(k) => k < i && last_dot(name@.take(i as int)) == Some(k as int),
                None => last_dot(name@.take(i as int)) is None,
            },
        decreases n - i,
    {
        let c = name.get_char(i);
        assert(name@.take(i + 1).drop_last() =~= name@.take(i as int));
        if c == '.' {
            dot = Some(i);
        }
        i = i + 1;
    }
    assert(name@.take(n as int) =~= name@);
    let is_dots = n == 2 && name.get_char(0) == '.' && name.get_char(1) == '.';
    assert(is_dots <==> name@ =~= seq!['.', '.']);
    match dot {
        Some(k) => {
            if k == 0 || is_dots {
                (String::from_str(name), None)
            } else {
                let stem = String::from_str(name.substring_char(0, k));
                let extension = String::from_str(name.substring_char(k + 1, n));
                (stem, Some(extension))
            }
        },
        None => (String::from_str(name), None),
    }
}

/// The file name with suffix `i` before its extension.
pub fn candidate_name(name: &str, i: u32) -> (s: String)
    ensures
        s@ == candidate(name@, i as nat),
{
    proof {
        reveal_strlit("_");
        reveal_strlit(".");
    }
    let (stem, extension) = split_file_name(name);
    let mut s = stem;
    s.append("_");
    let number = decimal_string(i);
    s.append(number.as_str());
    match extension {
        Some(e) => {
            s.append(".");
            s.append(e.as_str());
            assert(s@ =~= candidate(name@, i as nat));
        },
        None => {
            assert(s@ =~= candidate(name@, i as nat));
        },
    }
    s
}

/// Whether `name` is among the names that exist.
pub fn is_taken(taken: &Vec<String>, name: &String) -> (b: bool)
    ensures
        b == taken.deep_view().contains(name@),
{
    let mut i: usize = 0;
    while i < taken.len()
        invariant
            i <= taken.len(),
            forall|j: int| 0 <= j < i ==> taken.deep_view()[j] != name@,
        decreases taken.len() - i,
    {
        if taken[i] == *name {
            assert(taken.deep_view()[i as int] == name@);
            return true;
        }
        i = i + 1;
    }
    false
}

/// Picks the output name for the input file name `file_name`, where `taken`
/// holds the names that exist in the output directory. Returns nothing where
/// the name and all its suffixed forms are taken: that file is skipped.
pub fn resolve_output_name(file_name: &str, taken: &Vec<String>) -> (r: Option<String>)
    ensures
        r.deep_view() == resolve_spec(file_name@, taken.deep_view()),
{
    let plain = String::from_str(file_name);
    if !is_taken(taken, &plain) {
        return Some(plain);
    }
    let mut i: u32 = 0;
    while i < MAX_SUFFIXES
        invariant
            i <= MAX_SUFFIXES,
            taken.deep_view().contains(file_name@),
            first_free(file_name@, taken.deep_view(), 0) == first_free(
                file_name@,
                taken.deep_view(),
                i as nat,
            ),
        decreases MAX_SUFFIXES - i,
    {
        let name = candidate_name(file_name, i);
        if !is_taken(taken, &name) {
            return Some(name);
        }
        i = i + 1;
    }
    None
}

/// The name that is picked is free: it is not among the names that exist.
pub proof fn lemma_resolved_name_is_free(name: Seq<char>, taken: Seq<Seq<char>>)
    ensures
        resolve_spec(name, taken) is Some ==> !taken.contains(resolve_spec(name, taken)->Some_0),
{
    if taken.contains(name) {
        lemma_first_free(name, taken, 0);
    }
}

/// The name itself is picked where it is free. Otherwise the suffix that is
/// picked is the smallest one whose name is free, and no name is picked
/// exactly where the name and every suffixed form of it are taken.
pub proof fn lemma_resolved_name_is_first(name: Seq<char>, taken: Seq<Seq<char>>)
    ensures
        !taken.contains(name) ==> resolve_spec(name, taken) == Some(name),
        taken.contains(name) ==> match first_free(name, taken, 0) {
            Some(i) => {
                &&& i < MAX_SUFFIXES
                &&& resolve_spec(name, taken) == Some(candidate(name, i))
                &&& forall|j: nat| j < i ==> taken.contains(#[trigger] candidate(name, j))
            },
            None => {
                &&& resolve_spec(name, taken) is None
                &&& forall|j: nat|
                    j < MAX_SUFFIXES ==> taken.contains(#[trigger] candidate(name, j))
            },
        },
{
    lemma_first_free(name, taken, 0);
}

proof fn lemma_first_free(name: Seq<char>, taken: Seq<Seq<char>>, from: nat)
    ensures
        match first_free(name, taken, from) {
            Some(i) => {
                &&& from <= i < MAX_SUFFIXES
                &&& !taken.contains(candidate(name, i))
                &&& forall|j: nat| from <= j < i ==> taken.contains(#[trigger] candidate(name, j))
            },
            None => forall|j: nat|
                from <= j < MAX_SUFFIXES ==> taken.contains(#[trigger] candidate(name, j)),
        },
    decreases MAX_SUFFIXES - from,
{
    if from < MAX_SUFFIXES && taken.contains(candidate(name, from)) {
        lemma_first_free(name, taken, from + 1);
    }
}

/// What a batch waits for.
#[derive(Clone, Copy, Debug, PartialEq, Eq, Structural)]
pub enum Awaiting {
    /// The file name of the current input and the names in the output directory.
    Inspection,
    /// The end of the conversion of the current input.
    Conversion,
}

/// What the driver of a batch reports.
#[derive(Debug)]
pub enum BatchEvent {
    /// The file name of the input asked about, if its path has one, and the
    /// names that exist in the output directory.
    Inspected { file_name: Option<String>, taken: Vec<String> },
    /// The conversion asked for has ended, well or not.
    Converted { ok: bool },
}

/// What the driver of a batch is to do next.
#[derive(Debug, PartialEq, Eq)]
pub enum BatchAction {
    /// Look up the file name of this input and list the output directory.
    Inspect { input: usize },
    /// Convert this input into a file of this name in the output directory.
    Convert { input: usize, output_name: String },
    /// Every input has had its turn.
    Finished,
}

/// A batch action as the contracts see it.
pub enum BatchActionModel {
    Inspect { input: usize },
    Convert { input: usize, output_name: Seq<char> },
    Finished,
}

impl View for BatchAction {
    type V = BatchActionModel;

    open spec fn view(&self) -> BatchActionModel {
        match self {
            BatchAction::Inspect { input } => BatchActionModel::Inspect { input: *input },
            BatchAction::Convert { input, output_name } => BatchActionModel::Convert {
                input: *input,
                output_name: output_name@,
            },
            BatchAction::Finished => BatchActionModel::Finished,
        }
    }
}

/// The state of a batch as the contracts see it: how many inputs there are,
/// which one has its turn, and how the ones before it fared.
pub struct BatchModel {
    pub inputs: usize,
    pub cursor: usize,
    pub awaiting: Awaiting,
    pub converted: usize,
    pub failed: usize,
    pub skipped: usize,
}

impl BatchModel {
    /// A batch of `inputs` files of which none has had its turn.
    pub open spec fn initial(inputs: usize) -> BatchModel {
        BatchModel {
            inputs,
            cursor: 0,
            awaiting: Awaiting::Inspection,
            converted: 0,
            failed: 0,
            skipped: 0,
        }
    }

    /// Every input before the current one has fared in exactly one way.
    pub open spec fn wf(self) -> bool {
        &&& self.cursor <= self.inputs
        &&& self.converted + self.failed + self.skipped == self.cursor
        &&& self.awaiting == Awaiting::Conversion ==> self.cursor < self.inputs
    }

    /// Every input has had its turn.
    pub open spec fn is_finished(self) -> bool {
        self.cursor >= self.inputs
    }

    /// What is asked for when the current input has its turn.
    pub open spec fn turn(self) -> BatchActionModel {
        if self.cursor < self.inputs {
            BatchActionModel::Inspect { input: self.cursor }
        } else {
            BatchActionModel::Finished
        }
    }

    /// The batch once the current input has fared one way or another.
    pub open spec fn moved_on(self, converted: int, failed: int, skipped: int) -> BatchModel {
        BatchModel {
            cursor: (self.cursor + 1) as usize,
            awaiting: Awaiting::Inspection,
            converted: (self.converted + converted) as usize,
            failed: (self.failed + failed) as usize,
            skipped: (self.skipped + skipped) as usize,
            ..self
        }
    }

    /// The transition function of a batch. An input whose path has no file
    /// name, or for which no output name is free, is skipped. A conversion
    /// that fails is counted and the next input has its turn, as after one
    /// that went well. A report that was not asked for changes nothing.
    pub open spec fn next(self, event: BatchEvent) -> (BatchModel, BatchActionModel) {
        if self.is_finished() {
            (self, BatchActionModel::Finished)
        } else {
            match event {
                BatchEvent::Inspected { file_name, taken } => {
                    let picked = match file_name {
                        Some(name) => resolve_spec(name@, taken.deep_view()),
                        None => None,
                    };
                    match picked {
                        Some(output_name) => (
                            BatchModel { awaiting: Awaiting::Conversion, ..self },
                            BatchActionModel::Convert { input: self.cursor, output_name },
                        ),
                        None => (self.moved_on(0, 0, 1), self.moved_on(0, 0, 1).turn()),
                    }
                },
                BatchEvent::Converted { ok } => match self.awaiting {
                    Awaiting::Conversion => if ok {
                        (self.moved_on(1, 0, 0), self.moved_on(1, 0, 0).turn())
                    } else {
                        (self.moved_on(0, 1, 0), self.moved_on(0, 1, 0).turn())
                    },
                    Awaiting::Inspection => (self, self.turn()),
                },
            }
        }
    }
}

/// A batch of inputs that are converted one after the other, each on its own.
#[derive(Clone, Copy, Debug)]
pub struct Batch {
    inputs: usize,
    cursor: usize,
    awaiting: Awaiting,
    converted: usize,
    failed: usize,
    skipped: usize,
}

impl View for Batch {
    type V = BatchModel;

    closed spec fn view(&self) -> BatchModel {
        BatchModel {
            inputs: self.inputs,
            cursor: self.cursor,
            awaiting: self.awaiting,
            converted: self.converted,
            failed: self.failed,
            skipped: self.skipped,
        }
    }
}

impl Batch {
    #[verifier::type_invariant]
    spec fn inv(self) -> bool {
        self@.wf()
    }

    fn turn(&self) -> (action: BatchAction)
        ensures
            action@ == self@.turn(),
    {
        if self.cursor < self.inputs {
            BatchAction::Inspect { input: self.cursor }
        } else {
            BatchAction::Finished
        }
    }

    /// A batch of `inputs` files, and what to do first.
    pub fn begin(inputs: usize) -> (r: (Batch, BatchAction))
        ensures
            r.0@ == BatchModel::initial(inputs),
            r.1@ == BatchModel::initial(inputs).turn(),
    {
        let batch = Batch {
            inputs,
            cursor: 0,
            awaiting: Awaiting::Inspection,
            converted: 0,
            failed: 0,
            skipped: 0,
        };
        let action = batch.turn();
        (batch, action)
    }

    /// Takes what the driver reports and answers with what to do next.
    pub fn step(self, event: BatchEvent) -> (r: (Batch, BatchAction))
        ensures
            (r.0@, r.1@) == self@.next(event),
            self@.wf(),
            r.0@.wf(),
    {
        proof {
            use_type_invariant(&self);
        }
        if self.cursor >= self.inputs {
            return (self, BatchAction::Finished);
        }
        match event {
            BatchEvent::Inspected { file_name, taken } => {
                let picked = match file_name {
                    Some(name) => resolve_output_name(name.as_str(), &taken),
                    None => None,
                };
                match picked {
                    Some(output_name) => {
                        let batch = Batch { awaiting: Awaiting::Conversion, ..self };
                        (batch, BatchAction::Convert { input: self.cursor, output_name })
                    },
                    None => {
                        let batch = Batch {
                            cursor: self.cursor + 1,
                            awaiting: Awaiting::Inspection,
                            skipped: self.skipped + 1,
                            ..self
                        };
                        let action = batch.turn();
                        (batch, action)
                    },
                }
            },
            BatchEvent::Converted { ok } => match self.awaiting {
                Awaiting::Conversion => {
                    let batch = if ok {
                        Batch {
                            cursor: self.cursor + 1,
                            awaiting: Awaiting::Inspection,
                            converted: self.converted + 1,
                            ..self
                        }
                    } else {
                        Batch {
                            cursor: self.cursor + 1,
                            awaiting: Awaiting::Inspection,
                            failed: self.failed + 1,
                            ..self
                        }
                    };
                    let action = batch.turn();
                    (batch, action)
                },
                Awaiting::Inspection => {
                    let action = self.turn();
                    (self, action)
                },
            },
        }
    }

    /// How many inputs were converted, how many conversions failed, and how
    /// many inputs were skipped, so far.
    pub fn counts(&self) -> (r: (usize, usize, usize))
        ensures
            r == (self@.converted, self@.failed, self@.skipped),
            self@.wf(),
    {
        proof {
            use_type_invariant(self);
        }
        (self.converted, self.failed, self.skipped)
    }

    /// Whether every input has had its turn.
    pub fn is_finished(&self) -> (b: bool)
        ensures
            b == self@.is_finished(),
    {
        self.cursor >= self.inputs
    }
}

/// Every step keeps a batch well formed, and no input loses its turn or has
/// two: the batch stays at the current input or moves on to the next one.
pub proof fn lemma_batch_step(m: BatchModel, event: BatchEvent)
    requires
        m.wf(),
    ensures
        m.next(event).0.wf(),
        m.next(event).0.inputs == m.inputs,
        m.next(event).0.cursor == m.cursor || m.next(event).0.cursor == m.cursor + 1,
        m.next(event).1 is Finished <==> m.next(event).0.is_finished(),
        m.next(event).0.is_finished() ==> m.next(event).0.converted + m.next(event).0.failed
            + m.next(event).0.skipped == m.inputs,
{
}

/// The inputs of a batch do not depend on each other: after a conversion
/// that failed the batch goes on exactly as after one that went well, with
/// the next input, and only the count of failures tells the difference.
pub proof fn lemma_failure_does_not_stop_the_batch(m: BatchModel)
    requires
        m.wf(),
        m.awaiting == Awaiting::Conversion,
    ensures
        ({
            let (bad, after_bad) = m.next(BatchEvent::Converted { ok: false });
            let (good, after_good) = m.next(BatchEvent::Converted { ok: true });
            &&& after_bad == after_good
            &&& bad.cursor == m.cursor + 1
            &&& good.cursor == m.cursor + 1
            &&& bad.awaiting == good.awaiting
            &&& bad.failed == m.failed + 1
            &&& good.converted == m.converted + 1
            &&& bad.cursor < m.inputs ==> after_bad == (BatchActionModel::Inspect {
                input: bad.cursor,
            })
        }),
{
}

/// The name that a conversion is asked to write to does not exist in the
/// output directory as it was listed.
pub proof fn lemma_convert_writes_a_free_name(m: BatchModel, event: BatchEvent)
    requires
        m.wf(),
    ensures
        match m.next(event).1 {
            BatchActionModel::Convert { input, output_name } => {
                &&& event is Inspected
                &&& event->Inspected_file_name is Some
                &&& input == m.cursor
                &&& input < m.inputs
                &&& !event->Inspected_taken.deep_view().contains(output_name)
                &&& Some(output_name) == resolve_spec(
                    event->Inspected_file_name->Some_0@,
                    event->Inspected_taken.deep_view(),
                )
            },
            _ => true,
        },
{
    match event {
        BatchEvent::Inspected { file_name, taken } => {
            match file_name {
                Some(name) => {
                    lemma_resolved_name_is_free(name@, taken.deep_view());
                },
                None => {},
            }
        },
        _ => {},
    }
}

} // verus!
