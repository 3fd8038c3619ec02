//! Reading the bootstrap (TOML) and dynamic (JSON) configs: what a failed
//! read or parse is reported as.

use crate::text::join3;
use crate::types::GfeError;
use vstd::prelude::*;
use vstd::string::*;

verus! {

/// What happened to a file.
#[derive(Debug, Clone, Copy, PartialEq, Eq, Structural)]
pub enum FileStep {
    /// A config file was read.
    Reading,
    /// A config file was parsed.
    Parsing,
    /// The cache was read.
    ReadingCache,
    /// The cache was parsed.
    ParsingCache,
    /// The cache was written.
    WritingCache,
    /// The written cache was put in place.
    RenamingCache,
}

/// The verb of a step.
pub open spec fn step_text(step: FileStep) -> Seq<char> {
    match step {
        FileStep::Reading => "reading "@,
        FileStep::Parsing => "parsing "@,
        FileStep::ReadingCache => "reading cache "@,
        FileStep::ParsingCache => "parsing cache "@,
        FileStep::WritingCache => "writing cache "@,
        FileStep::RenamingCache => "renaming cache "@,
    }
}

/// The error of a step that failed on a file.
pub fn file_error(step: FileStep, path: &str, error: &str) -> (r: GfeError)
    ensures
        r matches GfeError::Config(m) && m@ == step_text(step) + path@ + ": "@ + error@,
{
    let verb = match step {
        FileStep::Reading => "reading ",
        FileStep::Parsing => "parsing ",
        FileStep::ReadingCache => "reading cache ",
        FileStep::ParsingCache => "parsing cache ",
        FileStep::WritingCache => "writing cache ",
        FileStep::RenamingCache => "renaming cache ",
    };
    let mut out = join3(verb, path, ": ");
    out.append(error);
    GfeError::Config(out)
}

/// The error of a configuration that cannot be serialized for the cache.
pub fn serialize_error(error: &str) -> (r: GfeError)
    ensures
        r matches GfeError::Config(m) && m@ == "serializing cache: "@ + error@,
{
    GfeError::Config(crate::text::join2("serializing cache: ", error))
}

/// The result of a step on a file: its value, or the error that names the file.
pub fn file_result<T>(step: FileStep, path: &str, outcome: Result<T, String>) -> (r: Result<
    T,
    GfeError,
>)
    ensures
        match outcome {
            Ok(v) => r == Ok::<T, GfeError>(v),
            Err(e) => r matches Err(GfeError::Config(m)) && m@ == step_text(step) + path@ + ": "@
                + e@,
        },
{
    match outcome {
        Ok(v) => Ok(v),
        Err(e) => Err(file_error(step, path, e.as_str())),
    }
}

/// The verbs of the steps. Those on the cache name it.
pub proof fn law_step_texts()
    ensures
        step_text(FileStep::Reading) == "reading "@,
        step_text(FileStep::Parsing) == "parsing "@,
        step_text(FileStep::ReadingCache) == step_text(FileStep::Reading) + "cache "@,
        step_text(FileStep::ParsingCache) == step_text(FileStep::Parsing) + "cache "@,
        step_text(FileStep::WritingCache) == "writing "@ + "cache "@,
        step_text(FileStep::RenamingCache) == "renaming "@ + "cache "@,
{
    reveal_strlit("reading ");
    reveal_strlit("parsing ");
    reveal_strlit("writing ");
    reveal_strlit("renaming ");
    reveal_strlit("cache ");
    reveal_strlit("reading cache ");
    reveal_strlit("parsing cache ");
    reveal_strlit("writing cache ");
    reveal_strlit("renaming cache ");
    assert("reading cache "@ =~= "reading "@ + "cache "@);
    assert("parsing cache "@ =~= "parsing "@ + "cache "@);
    assert("writing cache "@ =~= "writing "@ + "cache "@);
    assert("renaming cache "@ =~= "renaming "@ + "cache "@);
}

}
