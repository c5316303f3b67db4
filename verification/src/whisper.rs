//! Transcription tasks and the bookkeeping of speech models, as far as it is
//! plain data: which models there are, and when the model in memory has to be
//! replaced.

use vstd::prelude::*;
use vstd::string::StringExecFns;

verus! {

/// What a task asks of the model.
#[derive(Clone, Copy, Debug, PartialEq, Eq, Structural)]
pub enum TaskType {
    Transcribe,
    Translate,
    LangId,
}

/// How a file is to be decoded.
#[derive(Clone, Copy, Debug, PartialEq, Eq, Structural)]
pub struct TmpDecodeOption {
    pub task: TaskType,
}

impl TmpDecodeOption {
    pub fn new(task: TaskType) -> (o: TmpDecodeOption)
        ensures
            o.task == task,
    {
        TmpDecodeOption { task }
    }

    pub fn task(&self) -> (task: TaskType)
        ensures
            task == self.task,
    {
        self.task
    }
}

/// One file to transcribe.
#[derive(Debug)]
pub struct WhisperTask {
    pub file_path: String,
    pub decode_option: TmpDecodeOption,
}

impl WhisperTask {
    pub fn new(file_path: String, decode_option: TmpDecodeOption) -> (t: WhisperTask)
        ensures
            t.file_path == file_path,
            t.decode_option == decode_option,
    {
        WhisperTask { file_path, decode_option }
    }

    pub fn file_path(&self) -> (path: &String)
        ensures
            path == self.file_path,
    {
        &self.file_path
    }

    pub fn decode_option(&self) -> (o: TmpDecodeOption)
        ensures
            o == self.decode_option,
    {
        self.decode_option
    }
}

/// The path of the first task, which is the one that is run.
pub fn whisper_run_tasks(tasks: &Vec<WhisperTask>) -> (path: String)
    requires
        tasks.len() > 0,
    ensures
        path@ == tasks[0].file_path@,
{
    tasks[0].file_path.clone()
}

/// The speech models by size; `En` marks the ones for English only.
#[derive(Clone, Copy, Debug, PartialEq, Eq, Structural)]
pub enum ModelKind {
    Tiny,
    TinyEn,
    Base,
    BaseEn,
    Small,
    SmallEn,
    Medium,
    MediumEn,
    LargeV1,
    LargeV2,
    LargeV3,
}

/// The models that are offered, smallest first.
pub open spec fn offered_models() -> Seq<ModelKind> {
    seq![
        ModelKind::Tiny,
        ModelKind::TinyEn,
        ModelKind::Base,
        ModelKind::BaseEn,
        ModelKind::Small,
        ModelKind::SmallEn,
        ModelKind::Medium,
        ModelKind::MediumEn,
        ModelKind::LargeV3,
    ]
}

/// The models that the front end offers.
pub fn whisper_get_model_kinds() -> (kinds: Vec<ModelKind>)
    ensures
        kinds@ == offered_models(),
{
    let mut kinds: Vec<ModelKind> = Vec::new();
    kinds.push(ModelKind::Tiny);
    kinds.push(ModelKind::TinyEn);
    kinds.push(ModelKind::Base);
    kinds.push(ModelKind::BaseEn);
    kinds.push(ModelKind::Small);
    kinds.push(ModelKind::SmallEn);
    kinds.push(ModelKind::Medium);
    kinds.push(ModelKind::MediumEn);
    kinds.push(ModelKind::LargeV3);
    assert(kinds@ =~= offered_models());
    kinds
}

/// Whether a model has to be loaded before tasks can run: none is in memory,
/// or another one than the selected.
pub fn needs_reload(in_memory: Option<ModelKind>, selected: ModelKind) -> (b: bool)
    ensures
        b == (in_memory != Some(selected)),
{
    match in_memory {
        Some(kind) => kind != selected,
        None => true,
    }
}

/// The texts one after the other.
pub open spec fn concatenated(texts: Seq<Seq<char>>) -> Seq<char>
    decreases texts.len(),
{
    if texts.len() == 0 {
        Seq::empty()
    } else {
        concatenated(texts.drop_last()) + texts.last()
    }
}

/// The text of a file: the texts of its segments, one after the other.
pub fn concat_texts(texts: &Vec<String>) -> (text: String)
    ensures
        text@ == concatenated(texts.deep_view()),
{
    let mut text = String::new();
    let mut i: usize = 0;
    while i < texts.len()
        invariant
            i <= texts.len(),
            text@ == concatenated(texts.deep_view().take(i as int)),
        decreases texts.len() - i,
    {
        text.append(texts[i].as_str());
        proof {
            let upto = texts.deep_view().take(i + 1);
            assert(upto.drop_last() =~= texts.deep_view().take(i as int));
            assert(upto.last() == texts[i as int]@);
        }
        i = i + 1;
    }
    assert(texts.deep_view().take(texts.len() as int) =~= texts.deep_view());
    text
}

} // verus!
