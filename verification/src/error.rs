//! Why a script is rejected.

use crate::text::{from_chars, push_str, strings, to_chars};
use vstd::prelude::*;

verus! {

/// The reason for which a script is rejected, as contracts speak of it.
pub enum ScriptFault {
    Format { section: Seq<char> },
    MissingValue { parameter: Seq<char> },
    InvalidValue { parameter: Seq<char> },
    BlankLine { section: Seq<char> },
    UnfinishedSection { section: Seq<char> },
    BrokenQuote { line: Seq<char> },
    AbsentTerms { value_terms: Seq<Seq<char>>, bracket_terms: Seq<Seq<char>> },
    NotMp3 { path: Seq<char> },
    MissingMusic { path: Seq<char> },
    DisallowedFiletype { path: Seq<char> },
    MissingResource { path: Seq<char> },
    DuplicateResource { path: Seq<char> },
    UndeclaredResources { paths: Seq<Seq<char>> },
}

/// The reason for which a script is rejected.
#[derive(Debug)]
pub enum ScriptError {
    /// The document does not have the shape of its dialect: a bracket or a
    /// quotation mark without a partner, a wrong label, an entry without its
    /// keyword, an empty block, or a block nested too deep.
    Format { section: String },
    /// A parameter stands on its line without a value.
    MissingValue { parameter: String },
    /// The value of a parameter is no whole number.
    InvalidValue { parameter: String },
    /// A section holds a blank line.
    BlankLine { section: String },
    /// The script ends inside a section.
    UnfinishedSection { section: String },
    /// A line holds a quotation mark without a partner, or a brace between
    /// quotation marks.
    BrokenQuote { line: String },
    /// Required terms do not occur: every one of them is listed.
    AbsentTerms { value_terms: Vec<String>, bracket_terms: Vec<String> },
    /// A music entry does not name an MP3 file.
    NotMp3 { path: String },
    /// A music entry names a file that neither sound directory holds.
    MissingMusic { path: String },
    /// A resource entry names a file of a kind that is never distributed.
    DisallowedFiletype { path: String },
    /// A resource entry names a file that the release does not hold.
    MissingResource { path: String },
    /// A resource is declared more than once.
    DuplicateResource { path: String },
    /// Files of the release that the manifest does not declare: every one of
    /// them is listed.
    UndeclaredResources { paths: Vec<String> },
}

impl View for ScriptError {
    type V = ScriptFault;

    open spec fn view(&self) -> ScriptFault {
        match self {
            ScriptError::Format { section } => ScriptFault::Format { section: section@ },
            ScriptError::MissingValue { parameter } => ScriptFault::MissingValue {
                parameter: parameter@,
            },
            ScriptError::InvalidValue { parameter } => ScriptFault::InvalidValue {
                parameter: parameter@,
            },
            ScriptError::BlankLine { section } => ScriptFault::BlankLine { section: section@ },
            ScriptError::UnfinishedSection { section } => ScriptFault::UnfinishedSection {
                section: section@,
            },
            ScriptError::BrokenQuote { line } => ScriptFault::BrokenQuote { line: line@ },
            ScriptError::AbsentTerms { value_terms, bracket_terms } => ScriptFault::AbsentTerms {
                value_terms: strings(value_terms@),
                bracket_terms: strings(bracket_terms@),
            },
            ScriptError::NotMp3 { path } => ScriptFault::NotMp3 { path: path@ },
            ScriptError::MissingMusic { path } => ScriptFault::MissingMusic { path: path@ },
            ScriptError::DisallowedFiletype { path } => ScriptFault::DisallowedFiletype {
                path: path@,
            },
            ScriptError::MissingResource { path } => ScriptFault::MissingResource { path: path@ },
            ScriptError::DuplicateResource { path } => ScriptFault::DuplicateResource {
                path: path@,
            },
            ScriptError::UndeclaredResources { paths } => ScriptFault::UndeclaredResources {
                paths: strings(paths@),
            },
        }
    }
}

/// The kinds of failure that a validator reports.
#[derive(Clone, Copy, Debug, PartialEq, Eq, Structural)]
pub enum FailureKind {
    /// A structural violation.
    Format,
    /// A required field or section is absent.
    MissingField,
    /// A declared path does not resolve, or resolves to a file of a kind that
    /// is not allowed.
    Reference,
    /// Files on disk are not declared.
    Reconciliation,
}

/// The kind of a fault.
pub open spec fn fault_kind(fault: ScriptFault) -> FailureKind {
    match fault {
        ScriptFault::Format { .. } => FailureKind::Format,
        ScriptFault::MissingValue { .. } => FailureKind::Format,
        ScriptFault::InvalidValue { .. } => FailureKind::Format,
        ScriptFault::BlankLine { .. } => FailureKind::Format,
        ScriptFault::UnfinishedSection { .. } => FailureKind::Format,
        ScriptFault::BrokenQuote { .. } => FailureKind::Format,
        ScriptFault::AbsentTerms { .. } => FailureKind::MissingField,
        ScriptFault::NotMp3 { .. } => FailureKind::Reference,
        ScriptFault::MissingMusic { .. } => FailureKind::Reference,
        ScriptFault::DisallowedFiletype { .. } => FailureKind::Reference,
        ScriptFault::MissingResource { .. } => FailureKind::Reference,
        ScriptFault::DuplicateResource { .. } => FailureKind::Reference,
        ScriptFault::UndeclaredResources { .. } => FailureKind::Reconciliation,
    }
}

/// Why a sweep over the script files of an installation fails.
#[derive(Debug)]
pub enum FullcheckError {
    /// The directory that should hold the scripts does not exist.
    MissingDirectory,
    /// A script is rejected. The sweep stops at the first such script.
    File { path: String, error: ScriptError },
}

/// Whether a check that returned `r` gave the verdict `verdict`: it accepted
/// where the verdict accepts, and else rejected with the fault of the
/// verdict.
pub open spec fn reports(r: Result<(), ScriptError>, verdict: Result<(), ScriptFault>) -> bool {
    match r {
        Ok(()) => verdict is Ok,
        Err(e) => verdict == Err::<(), ScriptFault>(e@),
    }
}

/// The given names in a row, each followed by a blank.
pub open spec fn in_a_row(names: Seq<Seq<char>>) -> Seq<char>
    decreases names.len(),
{
    if names.len() == 0 {
        Seq::empty()
    } else {
        in_a_row(names.drop_last()) + names.last() + seq![' ']
    }
}

/// The part of the report of absent terms that lists the terms of one kind
/// under its heading; nothing where no term of that kind is absent.
pub open spec fn absent_part(heading: Seq<char>, names: Seq<Seq<char>>) -> Seq<char> {
    if names.len() == 0 {
        Seq::empty()
    } else {
        heading + in_a_row(names)
    }
}

/// The words in which a fault is reported. They name the parameter, the
/// section or the path that is at fault, and every term or file where there
/// are several.
pub open spec fn message_text(fault: ScriptFault) -> Seq<char> {
    match fault {
        ScriptFault::Format { section } =>
            "Script contains core format mistake!\n  Make sure every bracket and quotation mark has a partner, the main section is labeled \""@
                + section
                + "\", each file path stands with its \"file\" keyword, no bracketed sections are empty, and that no bracketed section is nested too deep."@,
        ScriptFault::MissingValue { parameter } =>
            "[Map Script Validate Error] Expected value for parameter "@ + parameter,
        ScriptFault::InvalidValue { parameter } => "[Map Script Validate Error] Parameter for "@
            + parameter + " not a valid whole number value!"@,
        ScriptFault::BlankLine { section } =>
            "[Map Script Validate Error] Subvalue section for "@ + section
                + " contains a blank line when it must not contain any!"@,
        ScriptFault::UnfinishedSection { section } =>
            "[Map Script Validate Error] Script ends in the middle of the "@ + section
                + " section!"@,
        ScriptFault::BrokenQuote { line } =>
            "[Map Script Validate Error] Quotation mark without a partner on the line: "@ + line,
        ScriptFault::AbsentTerms { value_terms, bracket_terms } => "[Map Script Validate Error] "@
            + absent_part("Absent value terms: "@, value_terms) + absent_part(
            "Absent bracket terms: "@,
            bracket_terms,
        ),
        ScriptFault::NotMp3 { path } => "File "@ + path
            + " is not an MP3 file!  Please convert it to mp3 format."@,
        ScriptFault::MissingMusic { path } => "Failed to locate music file "@ + path
            + " in either the GE:S or local directory tree\nEnsure that the file path is valid and that the file exists."@,
        ScriptFault::DisallowedFiletype { path } => "Resource file "@ + path
            + " is of a filetype that should not be included in the reslist!  Map files and the reslist itself do not need to be included in the reslist."@,
        ScriptFault::MissingResource { path } => "Failed to locate resource file "@ + path
            + "\nEnsure that the file path is valid, and that the file exists."@,
        ScriptFault::DuplicateResource { path } => "Resource file "@ + path
            + " is referenced multiple times!  Please remove the redundant references."@,
        ScriptFault::UndeclaredResources { paths } => "Resource files "@ + in_a_row(paths)
            + " aren't included in the reslist!  Be sure to include entries for them or remove them from the distribution folder."@,
    }
}

/// The words in which the failure of a sweep is reported: for a rejected
/// script, its path and the report of its fault.
pub open spec fn sweep_message_text(path: Seq<char>, fault: ScriptFault) -> Seq<char> {
    "While processing "@ + path + " the following error was encountered:\n"@ + message_text(
        fault,
    )
}

fn push_in_a_row(out: &mut Vec<char>, names: &Vec<String>)
    ensures
        final(out)@ == old(out)@ + in_a_row(strings(names@)),
{
    let ghost before = out@;
    let mut i: usize = 0;
    assert(strings(names@).take(0) =~= Seq::<Seq<char>>::empty());
    while i < names.len()
        invariant
            i <= names.len(),
            out@ == before + in_a_row(strings(names@).take(i as int)),
        decreases names.len() - i,
    {
        let ghost done = strings(names@).take(i as int);
        let ghost more = strings(names@).take(i + 1);
        proof {
            assert(more.drop_last() =~= done);
            assert(more.last() == names[i as int]@);
        }
        push_str(out, names[i].as_str());
        out.push(' ');
        assert(out@ =~= before + in_a_row(more));
        i += 1;
    }
    assert(strings(names@).take(names.len() as int) =~= strings(names@));
}

fn push_absent_part(out: &mut Vec<char>, heading: &str, names: &Vec<String>)
    ensures
        final(out)@ == old(out)@ + absent_part(heading@, strings(names@)),
{
    if names.len() > 0 {
        push_str(out, heading);
        push_in_a_row(out, names);
        assert(out@ =~= old(out)@ + absent_part(heading@, strings(names@)));
    } else {
        assert(out@ =~= old(out)@ + absent_part(heading@, strings(names@)));
    }
}

fn framed(before: &str, name: &str, after: &str) -> (r: String)
    ensures
        r@ == before@ + name@ + after@,
{
    let mut out = to_chars(before);
    push_str(&mut out, name);
    push_str(&mut out, after);
    from_chars(out.as_slice())
}

impl ScriptError {
    /// The kind of this failure.
    pub fn kind(&self) -> (r: FailureKind)
        ensures
            r == fault_kind(self@),
    {
        match self {
            ScriptError::Format { .. } => FailureKind::Format,
            ScriptError::MissingValue { .. } => FailureKind::Format,
            ScriptError::InvalidValue { .. } => FailureKind::Format,
            ScriptError::BlankLine { .. } => FailureKind::Format,
            ScriptError::UnfinishedSection { .. } => FailureKind::Format,
            ScriptError::BrokenQuote { .. } => FailureKind::Format,
            ScriptError::AbsentTerms { .. } => FailureKind::MissingField,
            ScriptError::NotMp3 { .. } => FailureKind::Reference,
            ScriptError::MissingMusic { .. } => FailureKind::Reference,
            ScriptError::DisallowedFiletype { .. } => FailureKind::Reference,
            ScriptError::MissingResource { .. } => FailureKind::Reference,
            ScriptError::DuplicateResource { .. } => FailureKind::Reference,
            ScriptError::UndeclaredResources { .. } => FailureKind::Reconciliation,
        }
    }
}

impl ScriptError {
    /// The words in which this failure is reported.
    pub fn message(&self) -> (r: String)
        ensures
            r@ == message_text(self@),
    {
        match self {
            ScriptError::Format { section } => framed(
                "Script contains core format mistake!\n  Make sure every bracket and quotation mark has a partner, the main section is labeled \"",
                section.as_str(),
                "\", each file path stands with its \"file\" keyword, no bracketed sections are empty, and that no bracketed section is nested too deep.",
            ),
            ScriptError::MissingValue { parameter } => {
                let r = framed(
                    "[Map Script Validate Error] Expected value for parameter ",
                    parameter.as_str(),
                    "",
                );
                proof {
                    reveal_strlit("");
                    assert(r@ =~= message_text(self@));
                }
                r
            },
            ScriptError::InvalidValue { parameter } => framed(
                "[Map Script Validate Error] Parameter for ",
                parameter.as_str(),
                " not a valid whole number value!",
            ),
            ScriptError::BlankLine { section } => framed(
                "[Map Script Validate Error] Subvalue section for ",
                section.as_str(),
                " contains a blank line when it must not contain any!",
            ),
            ScriptError::UnfinishedSection { section } => framed(
                "[Map Script Validate Error] Script ends in the middle of the ",
                section.as_str(),
                " section!",
            ),
            ScriptError::BrokenQuote { line } => {
                let r = framed(
                    "[Map Script Validate Error] Quotation mark without a partner on the line: ",
                    line.as_str(),
                    "",
                );
                proof {
                    reveal_strlit("");
                    assert(r@ =~= message_text(self@));
                }
                r
            },
            ScriptError::AbsentTerms { value_terms, bracket_terms } => {
                let mut out = to_chars("[Map Script Validate Error] ");
                push_absent_part(&mut out, "Absent value terms: ", value_terms);
                push_absent_part(&mut out, "Absent bracket terms: ", bracket_terms);
                from_chars(out.as_slice())
            },
            ScriptError::NotMp3 { path } => framed(
                "File ",
                path.as_str(),
                " is not an MP3 file!  Please convert it to mp3 format.",
            ),
            ScriptError::MissingMusic { path } => framed(
                "Failed to locate music file ",
                path.as_str(),
                " in either the GE:S or local directory tree\nEnsure that the file path is valid and that the file exists.",
            ),
            ScriptError::DisallowedFiletype { path } => framed(
                "Resource file ",
                path.as_str(),
                " is of a filetype that should not be included in the reslist!  Map files and the reslist itself do not need to be included in the reslist.",
            ),
            ScriptError::MissingResource { path } => framed(
                "Failed to locate resource file ",
                path.as_str(),
                "\nEnsure that the file path is valid, and that the file exists.",
            ),
            ScriptError::DuplicateResource { path } => framed(
                "Resource file ",
                path.as_str(),
                " is referenced multiple times!  Please remove the redundant references.",
            ),
            ScriptError::UndeclaredResources { paths } => {
                let mut out = to_chars("Resource files ");
                push_in_a_row(&mut out, paths);
                push_str(
                    &mut out,
                    " aren't included in the reslist!  Be sure to include entries for them or remove them from the distribution folder.",
                );
                from_chars(out.as_slice())
            },
        }
    }
}

impl FullcheckError {
    /// The words in which this failure is reported.
    pub fn message(&self) -> (r: String)
        ensures
            match self {
                FullcheckError::MissingDirectory => r@
                    == "Script directory does not exist!  Is this really a valid GE:S install?"@,
                FullcheckError::File { path, error } => r@ == sweep_message_text(path@, error@),
            },
    {
        match self {
            FullcheckError::MissingDirectory => String::from_str(
                "Script directory does not exist!  Is this really a valid GE:S install?",
            ),
            FullcheckError::File { path, error } => {
                let report = error.message();
                let mut out = to_chars("While processing ");
                push_str(&mut out, path.as_str());
                push_str(&mut out, " the following error was encountered:\n");
                push_str(&mut out, report.as_str());
                from_chars(out.as_slice())
            },
        }
    }
}

/// A check gives the same answer each time. When a script has been accepted
/// once, then, as long as neither the script nor the files it is held
/// against change, so that the verdict on it is the same, every later check
/// accepts it too; and one that has been rejected is rejected again for the
/// same fault.
pub proof fn lemma_check_is_repeatable(
    first: Result<(), ScriptError>,
    second: Result<(), ScriptError>,
    verdict: Result<(), ScriptFault>,
)
    requires
        reports(first, verdict),
        reports(second, verdict),
    ensures
        first is Ok <==> second is Ok,
        first is Err ==> second is Err && first->Err_0@ == second->Err_0@,
{
}

} // verus!
