//! The map script: the file that steers how a map is picked for rotation.
//!
//! A map script is read line by line. Five value terms stand on lines of
//! their own, each followed by a whole number. Three bracket terms each open
//! a section of `name value` lines between braces.

use crate::argument_handler::Arguments;
use crate::error::{reports, FullcheckError, ScriptError, ScriptFault};
use crate::line_grammar::{
    find_line_end, is_bare, is_blank, is_plain, is_word_char, join_lines, joined,
    lemma_blank_line_parts, lemma_brace_parts, lemma_lines_of_joined, lemma_one_word_parts,
    lemma_quoted_value_parts, lemma_two_words_parts, line_parts, lines, lines_from, parse_chars,
    with_returns, LineParts,
};
use crate::shared::{
    check_all_files_in_dir_with_func, lemma_swept, sweep_result, Outcome, ScriptFile,
};
use crate::text::{
    chars_equal, decimal, digits_value, from_chars, is_digit, lemma_decimal_is_read_back,
    lemma_natural_digits, natural_digits, parse_whole_number, push_decimal, push_str, strings,
    texts, to_chars, whole_number,
};
use vstd::prelude::*;
use vstd::slice::slice_subrange;

verus! {

/// The terms that stand on a line of their own with a value, in the order in
/// which a report lists them.
pub open spec fn value_terms() -> Seq<Seq<char>> {
    seq!["BaseWeight"@, "MaxPlayers"@, "MinPlayers"@, "ResIntensity"@, "TeamThreshold"@]
}

/// The terms that open a bracketed section, in the order in which a report
/// lists them.
pub open spec fn bracket_terms() -> Seq<Seq<char>> {
    seq!["WeaponsetWeights"@, "GamemodeWeights"@, "TeamGamemodeWeights"@]
}

/// Where the reading of a script stands: at the top level, or inside the
/// section of the bracket term with the given position.
pub enum ReadingState {
    ReadingTop,
    InsideSection(int),
}

/// How far the reading of a script has come: which terms are still needed,
/// and where the reading stands.
pub struct Progress {
    pub values_needed: Seq<bool>,
    pub brackets_needed: Seq<bool>,
    pub state: ReadingState,
}

/// Before the first line every term is needed and no section is open.
pub open spec fn start() -> Progress {
    Progress {
        values_needed: Seq::new(value_terms().len(), |k: int| true),
        brackets_needed: Seq::new(bracket_terms().len(), |k: int| true),
        state: ReadingState::ReadingTop,
    }
}

/// Whether progress is of the shape that reading keeps: a flag for each
/// term, and an open section that is one of the bracket terms that are
/// still needed.
pub open spec fn well_formed(progress: Progress) -> bool {
    &&& progress.values_needed.len() == value_terms().len()
    &&& progress.brackets_needed.len() == bracket_terms().len()
    &&& match progress.state {
        ReadingState::InsideSection(k) => 0 <= k < bracket_terms().len()
            && progress.brackets_needed[k],
        ReadingState::ReadingTop => true,
    }
}

/// The first term at or after `from` that is still needed and is written as
/// `word`.
pub open spec fn needed_term(
    names: Seq<Seq<char>>,
    needed: Seq<bool>,
    word: Seq<char>,
    from: int,
) -> Option<int>
    decreases names.len() - from,
{
    if 0 <= from < names.len() {
        if needed[from] && names[from] == word {
            Some(from)
        } else {
            needed_term(names, needed, word, from + 1)
        }
    } else {
        None
    }
}

/// The first `upto` terms that are still needed, in their order.
pub open spec fn needed_names(names: Seq<Seq<char>>, needed: Seq<bool>, upto: int) -> Seq<
    Seq<char>,
>
    decreases upto,
{
    if upto <= 0 {
        Seq::empty()
    } else if needed[upto - 1] {
        needed_names(names, needed, upto - 1).push(names[upto - 1])
    } else {
        needed_names(names, needed, upto - 1)
    }
}

/// What is wrong with the value of a parameter: it is absent, or it is no
/// whole number.
pub open spec fn line_value_fault(identifier: Seq<char>, value: Option<Seq<char>>) -> Option<
    ScriptFault,
> {
    match value {
        None => Some(ScriptFault::MissingValue { parameter: identifier }),
        Some(text) => if whole_number(text) is None {
            Some(ScriptFault::InvalidValue { parameter: identifier })
        } else {
            None
        },
    }
}

/// The progress after section `k` has been closed.
pub open spec fn closed(progress: Progress, k: int) -> Progress {
    Progress {
        values_needed: progress.values_needed,
        brackets_needed: progress.brackets_needed.update(k, false),
        state: ReadingState::ReadingTop,
    }
}

/// What one line does to the progress.
///
/// The line is taken apart into its identifier, its value and its braces. A
/// line that cannot be taken apart is a fault, and a comment line does
/// nothing. Outside a section, a line whose identifier is a needed value
/// term must carry a whole number and then fulfils the term; one whose
/// identifier is a needed bracket term opens its section; any other line is
/// passed over. Inside a section, a line with an identifier must carry a
/// whole number, and closes the section if it holds a closing brace; a line
/// without an identifier closes the section if it holds a closing brace, is
/// passed over if it holds an opening brace, and is a fault if it holds
/// neither.
pub open spec fn step(progress: Progress, line: Seq<char>) -> Result<Progress, ScriptFault> {
    match line_parts(line) {
        None => Err(ScriptFault::BrokenQuote { line }),
        Some(parts) => if parts.comment {
            Ok(progress)
        } else {
            match progress.state {
                ReadingState::ReadingTop => step_at_top(progress, parts),
                ReadingState::InsideSection(k) => step_inside(progress, k, parts),
            }
        },
    }
}

/// What a line that is no comment does outside a section.
pub open spec fn step_at_top(progress: Progress, parts: LineParts) -> Result<Progress, ScriptFault> {
    match parts.identifier {
        None => Ok(progress),
        Some(word) => match needed_term(value_terms(), progress.values_needed, word, 0) {
            Some(k) => match line_value_fault(word, parts.value) {
                Some(fault) => Err(fault),
                None => Ok(
                    Progress {
                        values_needed: progress.values_needed.update(k, false),
                        brackets_needed: progress.brackets_needed,
                        state: ReadingState::ReadingTop,
                    },
                ),
            },
            None => match needed_term(bracket_terms(), progress.brackets_needed, word, 0) {
                Some(k) => Ok(
                    Progress {
                        values_needed: progress.values_needed,
                        brackets_needed: progress.brackets_needed,
                        state: ReadingState::InsideSection(k),
                    },
                ),
                None => Ok(progress),
            },
        },
    }
}

/// What a line that is no comment does inside section `k`.
pub open spec fn step_inside(progress: Progress, k: int, parts: LineParts) -> Result<
    Progress,
    ScriptFault,
> {
    match parts.identifier {
        None => if parts.closes {
            Ok(closed(progress, k))
        } else if parts.opens {
            Ok(progress)
        } else {
            Err(ScriptFault::BlankLine { section: bracket_terms()[k] })
        },
        Some(word) => match line_value_fault(word, parts.value) {
            Some(fault) => Err(fault),
            None => if parts.closes {
                Ok(closed(progress, k))
            } else {
                Ok(progress)
            },
        },
    }
}

/// The verdict at the end of the script: no section may be open and no term
/// may be needed any more. The report of absent terms names every one.
pub open spec fn finish(progress: Progress) -> Result<(), ScriptFault> {
    let absent_values = needed_names(
        value_terms(),
        progress.values_needed,
        value_terms().len() as int,
    );
    let absent_brackets = needed_names(
        bracket_terms(),
        progress.brackets_needed,
        bracket_terms().len() as int,
    );
    match progress.state {
        ReadingState::InsideSection(k) => Err(
            ScriptFault::UnfinishedSection { section: bracket_terms()[k] },
        ),
        ReadingState::ReadingTop => if absent_values.len() > 0 || absent_brackets.len() > 0 {
            Err(
                ScriptFault::AbsentTerms {
                    value_terms: absent_values,
                    bracket_terms: absent_brackets,
                },
            )
        } else {
            Ok(())
        },
    }
}

/// The verdict on the lines that are left, from the progress made so far:
/// the fault of the first line that has one, else the verdict at the end.
pub open spec fn scan(rest: Seq<Seq<char>>, progress: Progress) -> Result<(), ScriptFault>
    decreases rest.len(),
{
    if rest.len() == 0 {
        finish(progress)
    } else {
        match step(progress, rest[0]) {
            Err(fault) => Err(fault),
            Ok(next) => scan(rest.subrange(1, rest.len() as int), next),
        }
    }
}

/// The verdict on a map script.
pub open spec fn map_script_verdict(text: Seq<char>) -> Result<(), ScriptFault> {
    scan(lines(text), start())
}

/// The text of a word that may be absent.
pub open spec fn given_chars(word: Option<&[char]>) -> Option<Seq<char>> {
    match word {
        Some(text) => Some(text@),
        None => None,
    }
}

/// The text of a string that may be absent.
pub open spec fn given_str(word: Option<&str>) -> Option<Seq<char>> {
    match word {
        Some(text) => Some(text@),
        None => None,
    }
}

/// A comment line: two slashes, a blank, and the comment.
pub open spec fn comment(text: Seq<char>) -> Seq<char> {
    seq!['/', '/', ' '] + text
}

/// A line that gives a term its value: the name, a tab, the number.
pub open spec fn value_line(name: Seq<char>, value: int) -> Seq<char> {
    name + seq!['\t'] + decimal(value)
}

/// The lines of a fresh map script for the given parameters: the five value
/// terms with their numbers, and the three sections with one inert example
/// entry each, under comments that explain them.
pub open spec fn map_script_lines(args: Arguments) -> Seq<Seq<char>> {
    seq![
        comment("Map Script File Generated by GE:S Map Release Assistant for 5.0 - Report Any Issues to Entropy-Soldier"@),
        ""@,
        comment("The game will try not to pick this map when the playercount is outside the range specified here."@),
        comment("The BaseWeight of the map controls how likely the map is to be chosen in random selection."@),
        comment("The map will not be chosen if the server playercount is below MinPlayers or above MaxPlayers"@),
        comment("The baseweight scales with how far the playercount is from the average of MinPlayers and MaxPlayers."@),
        comment("because of this, maps with large ranges are not very likely to be picked at the edges of them."@),
        comment("ResIntensity is a measure of how much data in unique assets a map has."@),
        comment("It will avoid switching between maps with a combined intensity score of 10 or greater to avoid client crashes."@),
        ""@,
        value_line("BaseWeight"@, args.baseweight as int),
        value_line("MaxPlayers"@, args.maxplayers as int),
        value_line("MinPlayers"@, args.minplayers as int),
        value_line("ResIntensity"@, args.resintensity as int),
        value_line("TeamThreshold"@, args.teamthresh as int),
        ""@,
        comment("Overrides the default weaponset weights if any sets are specified here.  Can be used as a blacklist."@),
        comment("Will only override weaponsets that are already in rotation, to prevent overriding gamemode specific lists."@),
        "WeaponsetWeights"@,
        "{"@,
        "\tslappers\t\t0"@,
        "}"@,
        ""@,
        comment("Weights for each gamemode if the map is switched to below the team threshold."@),
        comment("Overrides whatever weight is specified in default.txt, if there is one."@),
        comment("If a gamemode is not listed here or in default.txt it won't be used."@),
        "GamemodeWeights"@,
        "{"@,
        "\tYOLT\t\t0"@,
        "}"@,
        ""@,
        comment("Gamemode weights used when the map is switched to while playercount is above the team threshold."@),
        "TeamGamemodeWeights"@,
        "{"@,
        "\tCaptureTheFlag\t\t0"@,
        "}"@,
        ""@,
    ]
}

/// The text of a fresh map script for the given arguments.
pub open spec fn map_script_text(args: Arguments) -> Seq<char> {
    joined(map_script_lines(args))
}

struct Reader {
    value_names: Vec<Vec<char>>,
    bracket_names: Vec<Vec<char>>,
    values_needed: Vec<bool>,
    brackets_needed: Vec<bool>,
    checking: Option<usize>,
}

impl Reader {
    spec fn progress(&self) -> Progress {
        Progress {
            values_needed: self.values_needed@,
            brackets_needed: self.brackets_needed@,
            state: match self.checking {
                Some(k) => ReadingState::InsideSection(k as int),
                None => ReadingState::ReadingTop,
            },
        }
    }

    spec fn ready(&self) -> bool {
        &&& texts(self.value_names@) == value_terms()
        &&& texts(self.bracket_names@) == bracket_terms()
        &&& well_formed(self.progress())
    }
}

fn new_reader() -> (r: Reader)
    ensures
        r.ready(),
        r.progress() == start(),
{
    let mut value_names: Vec<Vec<char>> = Vec::new();
    value_names.push(to_chars("BaseWeight"));
    value_names.push(to_chars("MaxPlayers"));
    value_names.push(to_chars("MinPlayers"));
    value_names.push(to_chars("ResIntensity"));
    value_names.push(to_chars("TeamThreshold"));
    let mut bracket_names: Vec<Vec<char>> = Vec::new();
    bracket_names.push(to_chars("WeaponsetWeights"));
    bracket_names.push(to_chars("GamemodeWeights"));
    bracket_names.push(to_chars("TeamGamemodeWeights"));
    let mut values_needed: Vec<bool> = Vec::new();
    values_needed.push(true);
    values_needed.push(true);
    values_needed.push(true);
    values_needed.push(true);
    values_needed.push(true);
    let mut brackets_needed: Vec<bool> = Vec::new();
    brackets_needed.push(true);
    brackets_needed.push(true);
    brackets_needed.push(true);
    let r = Reader { value_names, bracket_names, values_needed, brackets_needed, checking: None };
    proof {
        assert(texts(r.value_names@) =~= value_terms());
        assert(texts(r.bracket_names@) =~= bracket_terms());
        assert(r.progress().values_needed =~= start().values_needed);
        assert(r.progress().brackets_needed =~= start().brackets_needed);
    }
    r
}

fn find_needed_term(names: &Vec<Vec<char>>, needed: &Vec<bool>, word: &[char]) -> (r: Option<
    usize,
>)
    requires
        names.len() == needed.len(),
    ensures
        match r {
            Some(k) => k < names.len() && needed@[k as int] && needed_term(
                texts(names@),
                needed@,
                word@,
                0,
            ) == Some(k as int),
            None => needed_term(texts(names@), needed@, word@, 0) is None,
        },
{
    let mut i: usize = 0;
    while i < names.len()
        invariant
            i <= names.len(),
            names.len() == needed.len(),
            needed_term(texts(names@), needed@, word@, 0) == needed_term(
                texts(names@),
                needed@,
                word@,
                i as int,
            ),
        decreases names.len() - i,
    {
        if needed[i] && chars_equal(names[i].as_slice(), word) {
            return Some(i);
        }
        i += 1;
    }
    None
}

/// Makes sure that the value of a parameter exists and is a whole number.
fn check_word_value(identifier: &[char], value: Option<&[char]>) -> (r: Result<(), ScriptError>)
    ensures
        match r {
            Ok(()) => line_value_fault(identifier@, given_chars(value)) is None,
            Err(e) => line_value_fault(identifier@, given_chars(value)) == Some(e@),
        },
{
    match value {
        None => Err(ScriptError::MissingValue { parameter: from_chars(identifier) }),
        Some(text) => match parse_whole_number(text) {
            Some(_) => Ok(()),
            None => Err(ScriptError::InvalidValue { parameter: from_chars(identifier) }),
        },
    }
}

/// Makes sure that the value given for a parameter exists and is a whole
/// number.
pub fn check_line_value_validity(line_identifier: &str, line_value: Option<&str>) -> (r: Result<
    (),
    ScriptError,
>)
    ensures
        match r {
            Ok(()) => line_value_fault(line_identifier@, given_str(line_value)) is None,
            Err(e) => line_value_fault(line_identifier@, given_str(line_value)) == Some(e@),
        },
{
    let identifier = to_chars(line_identifier);
    match line_value {
        None => check_word_value(identifier.as_slice(), None),
        Some(text) => {
            let value = to_chars(text);
            check_word_value(identifier.as_slice(), Some(value.as_slice()))
        },
    }
}

fn close_section(reader: &mut Reader, k: usize)
    requires
        old(reader).ready(),
        k < old(reader).brackets_needed.len(),
    ensures
        final(reader).ready(),
        final(reader).progress() == closed(old(reader).progress(), k as int),
{
    reader.brackets_needed[k] = false;
    reader.checking = None;
}

fn read_line(reader: &mut Reader, line: &[char]) -> (r: Result<(), ScriptError>)
    requires
        old(reader).ready(),
    ensures
        match r {
            Ok(()) => final(reader).ready() && step(old(reader).progress(), line@) == Ok::<
                Progress,
                ScriptFault,
            >(final(reader).progress()),
            Err(e) => step(old(reader).progress(), line@) == Err::<Progress, ScriptFault>(e@),
        },
{
    let words = match parse_chars(line) {
        Some(words) => words,
        None => {
            return Err(ScriptError::BrokenQuote { line: from_chars(line) });
        },
    };
    if words.comment {
        return Ok(());
    }
    let value: Option<&[char]> = match &words.value {
        Some(text) => Some(text.as_slice()),
        None => None,
    };
    match reader.checking {
        None => {
            let word = match &words.identifier {
                Some(word) => word.as_slice(),
                None => {
                    return Ok(());
                },
            };
            match find_needed_term(&reader.value_names, &reader.values_needed, word) {
                Some(k) => {
                    match check_word_value(word, value) {
                        Err(e) => {
                            return Err(e);
                        },
                        Ok(()) => {},
                    }
                    reader.values_needed[k] = false;
                    Ok(())
                },
                None => {
                    match find_needed_term(&reader.bracket_names, &reader.brackets_needed, word) {
                        Some(k) => {
                            reader.checking = Some(k);
                            Ok(())
                        },
                        None => Ok(()),
                    }
                },
            }
        },
        Some(k) => {
            match &words.identifier {
                None => {
                    if words.closes {
                        close_section(reader, k);
                        Ok(())
                    } else if words.opens {
                        Ok(())
                    } else {
                        Err(
                            ScriptError::BlankLine {
                                section: from_chars(reader.bracket_names[k].as_slice()),
                            },
                        )
                    }
                },
                Some(word) => {
                    match check_word_value(word.as_slice(), value) {
                        Err(e) => {
                            return Err(e);
                        },
                        Ok(()) => {},
                    }
                    if words.closes {
                        close_section(reader, k);
                    }
                    Ok(())
                },
            }
        },
    }
}

fn absent_terms(names: &Vec<Vec<char>>, needed: &Vec<bool>) -> (r: Vec<String>)
    requires
        names.len() == needed.len(),
    ensures
        strings(r@) == needed_names(texts(names@), needed@, names.len() as int),
{
    let mut out: Vec<String> = Vec::new();
    let mut i: usize = 0;
    while i < names.len()
        invariant
            i <= names.len(),
            names.len() == needed.len(),
            strings(out@) == needed_names(texts(names@), needed@, i as int),
        decreases names.len() - i,
    {
        if needed[i] {
            let name = from_chars(names[i].as_slice());
            let ghost before = strings(out@);
            out.push(name);
            assert(strings(out@) =~= before.push(texts(names@)[i as int]));
        }
        i += 1;
    }
    out
}

fn finish_reading(reader: &Reader) -> (r: Result<(), ScriptError>)
    requires
        reader.ready(),
    ensures
        match r {
            Ok(()) => finish(reader.progress()) is Ok,
            Err(e) => finish(reader.progress()) == Err::<(), ScriptFault>(e@),
        },
{
    match reader.checking {
        Some(k) => Err(
            ScriptError::UnfinishedSection {
                section: from_chars(reader.bracket_names[k].as_slice()),
            },
        ),
        None => {
            let value_terms = absent_terms(&reader.value_names, &reader.values_needed);
            let bracket_terms = absent_terms(&reader.bracket_names, &reader.brackets_needed);
            if value_terms.len() > 0 || bracket_terms.len() > 0 {
                Err(ScriptError::AbsentTerms { value_terms, bracket_terms })
            } else {
                Ok(())
            }
        },
    }
}

/// Checks a map script for format and parameter validity.
pub fn check_map_script_file(contents: &str) -> (r: Result<(), ScriptError>)
    ensures
        reports(r, map_script_verdict(contents@)),
{
    let text = to_chars(contents);
    let mut reader = new_reader();
    let mut pos: usize = 0;
    while pos < text.len()
        invariant
            pos <= text.len(),
            text@ == contents@,
            reader.ready(),
            map_script_verdict(text@) == scan(lines_from(text@, pos as int), reader.progress()),
        decreases text.len() - pos,
    {
        let end = find_line_end(text.as_slice(), pos);
        let line = slice_subrange(text.as_slice(), pos, end);
        proof {
            let rest = lines_from(text@, pos as int);
            assert(rest[0] == line@);
            assert(rest.subrange(1, rest.len() as int) == lines_from(text@, end + 1));
        }
        match read_line(&mut reader, line) {
            Err(e) => {
                return Err(e);
            },
            Ok(()) => {},
        }
        pos = if end < text.len() {
            end + 1
        } else {
            end
        };
    }
    finish_reading(&reader)
}

fn make_comment(text: &str) -> (r: Vec<char>)
    ensures
        r@ == comment(text@),
{
    let mut line: Vec<char> = Vec::new();
    line.push('/');
    line.push('/');
    line.push(' ');
    push_str(&mut line, text);
    assert(line@ =~= comment(text@));
    line
}

fn make_value_line(name: &str, value: i32) -> (r: Vec<char>)
    ensures
        r@ == value_line(name@, value as int),
{
    let mut line = to_chars(name);
    line.push('\t');
    push_decimal(&mut line, value);
    assert(line@ =~= value_line(name@, value as int));
    line
}

/// Writes a map script with the given arguments in the standard format.
/// The script that is written is one that the check accepts.
pub fn create_map_script_file(args: &Arguments) -> (r: String)
    ensures
        r@ == map_script_text(*args),
        map_script_verdict(r@) is Ok,
{
    proof {
        lemma_created_map_script_is_valid(*args);
    }
    let mut lines: Vec<Vec<char>> = Vec::new();
    lines.push(make_comment("Map Script File Generated by GE:S Map Release Assistant for 5.0 - Report Any Issues to Entropy-Soldier"));
    lines.push(to_chars(""));
    lines.push(make_comment("The game will try not to pick this map when the playercount is outside the range specified here."));
    lines.push(make_comment("The BaseWeight of the map controls how likely the map is to be chosen in random selection."));
    lines.push(make_comment("The map will not be chosen if the server playercount is below MinPlayers or above MaxPlayers"));
    lines.push(make_comment("The baseweight scales with how far the playercount is from the average of MinPlayers and MaxPlayers."));
    lines.push(make_comment("because of this, maps with large ranges are not very likely to be picked at the edges of them."));
    lines.push(make_comment("ResIntensity is a measure of how much data in unique assets a map has."));
    lines.push(make_comment("It will avoid switching between maps with a combined intensity score of 10 or greater to avoid client crashes."));
    lines.push(to_chars(""));
    lines.push(make_value_line("BaseWeight", args.baseweight));
    lines.push(make_value_line("MaxPlayers", args.maxplayers));
    lines.push(make_value_line("MinPlayers", args.minplayers));
    lines.push(make_value_line("ResIntensity", args.resintensity));
    lines.push(make_value_line("TeamThreshold", args.teamthresh));
    lines.push(to_chars(""));
    lines.push(make_comment("Overrides the default weaponset weights if any sets are specified here.  Can be used as a blacklist."));
    lines.push(make_comment("Will only override weaponsets that are already in rotation, to prevent overriding gamemode specific lists."));
    lines.push(to_chars("WeaponsetWeights"));
    lines.push(to_chars("{"));
    lines.push(to_chars("\tslappers\t\t0"));
    lines.push(to_chars("}"));
    lines.push(to_chars(""));
    lines.push(make_comment("Weights for each gamemode if the map is switched to below the team threshold."));
    lines.push(make_comment("Overrides whatever weight is specified in default.txt, if there is one."));
    lines.push(make_comment("If a gamemode is not listed here or in default.txt it won't be used."));
    lines.push(to_chars("GamemodeWeights"));
    lines.push(to_chars("{"));
    lines.push(to_chars("\tYOLT\t\t0"));
    lines.push(to_chars("}"));
    lines.push(to_chars(""));
    lines.push(make_comment("Gamemode weights used when the map is switched to while playercount is above the team threshold."));
    lines.push(to_chars("TeamGamemodeWeights"));
    lines.push(to_chars("{"));
    lines.push(to_chars("\tCaptureTheFlag\t\t0"));
    lines.push(to_chars("}"));
    lines.push(to_chars(""));
    assert(texts(lines@) =~= map_script_lines(*args));
    let text = join_lines(&lines);
    from_chars(text.as_slice())
}

/// Writes the map script of a release, or checks the one that exists.
///
/// `existing` holds the map script of the release as it was read, if there
/// is one. Without one, a fresh script is handed back for writing.
pub fn create_or_verify_map_script_file(args: &Arguments, existing: Option<&str>) -> (r: Result<
    Outcome,
    ScriptError,
>)
    ensures
        match existing {
            None => r matches Ok(Outcome::Created { contents }) && contents@ == map_script_text(
                *args,
            ),
            Some(text) => match map_script_verdict(text@) {
                Ok(_) => r matches Ok(Outcome::Verified),
                Err(fault) => r matches Err(e) && e@ == fault,
            },
        },
{
    match existing {
        None => Ok(Outcome::Created { contents: create_map_script_file(args) }),
        Some(text) => match check_map_script_file(text) {
            Ok(()) => Ok(Outcome::Verified),
            Err(e) => Err(e),
        },
    }
}

/// Checks every map script of an installation.
///
/// `directory_exists` says whether the installation has a directory of map
/// scripts, and `files` holds the files of that directory as they were read.
/// Every file with the extension `txt` is checked, in the order given, up to
/// the first that is rejected. Returns the number of scripts checked.
pub fn fullcheck_map_script_files(directory_exists: bool, files: &Vec<ScriptFile>) -> (r: Result<
    usize,
    FullcheckError,
>)
    ensures
        if directory_exists {
            sweep_result(r, files@, "txt"@, |text: Seq<char>| map_script_verdict(text))
        } else {
            r matches Err(FullcheckError::MissingDirectory)
        },
{
    if !directory_exists {
        return Err(FullcheckError::MissingDirectory);
    }
    let check = |contents: &String| -> (checked: Result<(), ScriptError>)
        ensures
            reports(checked, map_script_verdict(contents@)),
        { check_map_script_file(contents.as_str()) };
    let r = check_all_files_in_dir_with_func(files, "txt", check);
    proof {
        lemma_swept(r, files@, "txt"@, check, |text: Seq<char>| map_script_verdict(text));
    }
    r
}

/// No two terms have one name.
pub proof fn lemma_terms_are_distinct()
    ensures
        value_terms().no_duplicates(),
        bracket_terms().no_duplicates(),
        forall|i: int, j: int|
            0 <= i < value_terms().len() && 0 <= j < bracket_terms().len() ==> value_terms()[i]
                != bracket_terms()[j],
{
    reveal_strlit("BaseWeight");
    reveal_strlit("MaxPlayers");
    reveal_strlit("MinPlayers");
    reveal_strlit("ResIntensity");
    reveal_strlit("TeamThreshold");
    reveal_strlit("WeaponsetWeights");
    reveal_strlit("GamemodeWeights");
    reveal_strlit("TeamGamemodeWeights");
    let values = value_terms();
    let brackets = bracket_terms();
    assert(values[1][1] != values[2][1]);
    assert(values[0].len() == 10 && values[1].len() == 10 && values[2].len() == 10);
    assert(values[3].len() == 12 && values[4].len() == 13);
    assert(brackets[0].len() == 16 && brackets[1].len() == 15 && brackets[2].len() == 19);
    assert(values[0][0] != values[1][0]);
    assert(values[0][0] != values[2][0]);
}

proof fn lemma_needed_term(names: Seq<Seq<char>>, needed: Seq<bool>, word: Seq<char>, from: int)
    requires
        0 <= from,
    ensures
        needed_term(names, needed, word, from) matches Some(k) ==> from <= k < names.len()
            && needed[k] && names[k] == word,
    decreases names.len() - from,
{
    if from < names.len() && !(needed[from] && names[from] == word) {
        lemma_needed_term(names, needed, word, from + 1);
    }
}

/// Inside a section, a line that holds nothing but a closing brace closes
/// the section, and one that holds nothing but an opening brace changes
/// nothing, wherever on the line the brace stands.
pub proof fn lemma_brace_line(progress: Progress, k: int, before: Seq<char>, after: Seq<char>)
    requires
        progress.state == ReadingState::InsideSection(k),
        is_blank(before),
        is_blank(after),
    ensures
        step(progress, before + seq!['}'] + after) == Ok::<Progress, ScriptFault>(
            closed(progress, k),
        ),
        step(progress, before + seq!['{'] + after) == Ok::<Progress, ScriptFault>(progress),
{
    lemma_brace_parts(before, '}', after);
    lemma_brace_parts(before, '{', after);
}

/// Quotation marks around a value are no part of it: a line with a name and
/// a value does the same whether or not the value stands between quotation
/// marks.
pub proof fn lemma_quoted_value(
    progress: Progress,
    before: Seq<char>,
    name: Seq<char>,
    between: Seq<char>,
    value: Seq<char>,
    after: Seq<char>,
)
    requires
        is_blank(before),
        is_bare(name),
        is_blank(between),
        between.len() > 0,
        is_bare(value),
        is_blank(after),
        before.len() > 0 || name[0] != '/',
    ensures
        step(progress, before + name + between + seq!['"'] + value + seq!['"'] + after) == step(
            progress,
            before + name + between + value + after,
        ),
{
    assert(is_plain(value)) by {
        assert forall|i: int| 0 <= i < value.len() implies value[i] != '"' && value[i] != '{'
            && value[i] != '}' by {
            assert(is_word_char(value[i]));
        }
    }
    lemma_quoted_value_parts(before, name, between, value, after);
    lemma_two_words_parts(before, name, between, value, after);
}

/// Reading only ever fulfils terms: a line never makes a term needed again,
/// and it opens no section but one that is still needed. So no term is
/// fulfilled twice and no section is opened again once it has been closed.
pub proof fn lemma_no_term_is_needed_again(progress: Progress, line: Seq<char>)
    requires
        well_formed(progress),
        step(progress, line) is Ok,
    ensures
        well_formed(step(progress, line)->Ok_0),
        forall|k: int|
            0 <= k < value_terms().len() && step(progress, line)->Ok_0.values_needed[k]
                ==> progress.values_needed[k],
        forall|k: int|
            0 <= k < bracket_terms().len() && step(progress, line)->Ok_0.brackets_needed[k]
                ==> progress.brackets_needed[k],
        step(progress, line)->Ok_0.state matches ReadingState::InsideSection(k)
            ==> progress.brackets_needed[k],
        progress.state is InsideSection ==> step(progress, line)->Ok_0.state is ReadingTop || step(
            progress,
            line,
        )->Ok_0.state == progress.state,
{
    let parts = line_parts(line)->0;
    if !parts.comment {
        match progress.state {
            ReadingState::ReadingTop => {
                match parts.identifier {
                    Some(word) => {
                        lemma_needed_term(value_terms(), progress.values_needed, word, 0);
                        lemma_needed_term(bracket_terms(), progress.brackets_needed, word, 0);
                    },
                    None => {},
                }
            },
            ReadingState::InsideSection(k) => {},
        }
    }
}

spec fn flags(total: nat, fulfilled: int) -> Seq<bool> {
    Seq::new(total, |k: int| k >= fulfilled)
}

spec fn at_top(values: int, brackets: int) -> Progress {
    Progress {
        values_needed: flags(5, values),
        brackets_needed: flags(3, brackets),
        state: ReadingState::ReadingTop,
    }
}

spec fn inside(section: int) -> Progress {
    Progress {
        values_needed: flags(5, 5),
        brackets_needed: flags(3, section),
        state: ReadingState::InsideSection(section),
    }
}

spec fn scan_from(lines: Seq<Seq<char>>, at: int, progress: Progress) -> Result<(), ScriptFault>
    decreases lines.len() - at,
{
    if 0 <= at < lines.len() {
        match step(progress, lines[at]) {
            Err(fault) => Err(fault),
            Ok(next) => scan_from(lines, at + 1, next),
        }
    } else {
        finish(progress)
    }
}

proof fn lemma_scan_from(lines: Seq<Seq<char>>, at: int, progress: Progress)
    requires
        0 <= at <= lines.len(),
    ensures
        scan(lines.subrange(at, lines.len() as int), progress) == scan_from(lines, at, progress),
    decreases lines.len() - at,
{
    let rest = lines.subrange(at, lines.len() as int);
    if at < lines.len() {
        assert(rest[0] == lines[at]);
        assert(rest.subrange(1, rest.len() as int) =~= lines.subrange(at + 1, lines.len() as int));
        match step(progress, lines[at]) {
            Err(_) => {},
            Ok(next) => {
                lemma_scan_from(lines, at + 1, next);
            },
        }
    }
}

proof fn lemma_needed_term_at(
    names: Seq<Seq<char>>,
    needed: Seq<bool>,
    word: Seq<char>,
    from: int,
    at: int,
)
    requires
        0 <= from <= at < names.len(),
        forall|k: int| from <= k < at ==> !needed[k],
        needed[at],
        names[at] == word,
    ensures
        needed_term(names, needed, word, from) == Some(at),
    decreases at - from,
{
    if from < at {
        lemma_needed_term_at(names, needed, word, from + 1, at);
    }
}

proof fn lemma_needed_term_none(
    names: Seq<Seq<char>>,
    needed: Seq<bool>,
    word: Seq<char>,
    from: int,
)
    requires
        0 <= from,
        forall|k: int| from <= k < names.len() ==> !needed[k],
    ensures
        needed_term(names, needed, word, from) is None,
    decreases names.len() - from,
{
    if from < names.len() {
        lemma_needed_term_none(names, needed, word, from + 1);
    }
}

proof fn lemma_nothing_needed(names: Seq<Seq<char>>, needed: Seq<bool>, upto: int)
    requires
        0 <= upto <= needed.len(),
        forall|k: int| 0 <= k < upto ==> !needed[k],
    ensures
        needed_names(names, needed, upto).len() == 0,
    decreases upto,
{
    if upto > 0 {
        lemma_nothing_needed(names, needed, upto - 1);
    }
}

proof fn lemma_terms_are_words()
    ensures
        value_terms().len() == 5,
        bracket_terms().len() == 3,
        forall|k: int|
            0 <= k < 5 ==> is_bare(#[trigger] value_terms()[k]) && value_terms()[k][0] != '/',
        forall|k: int|
            0 <= k < 3 ==> is_bare(#[trigger] bracket_terms()[k]) && bracket_terms()[k][0] != '/',
{
    reveal_strlit("BaseWeight");
    reveal_strlit("MaxPlayers");
    reveal_strlit("MinPlayers");
    reveal_strlit("ResIntensity");
    reveal_strlit("TeamThreshold");
    reveal_strlit("WeaponsetWeights");
    reveal_strlit("GamemodeWeights");
    reveal_strlit("TeamGamemodeWeights");
}

proof fn lemma_decimal_is_bare(value: int)
    requires
        i32::MIN <= value <= i32::MAX,
    ensures
        is_bare(decimal(value)),
        whole_number(decimal(value)) == Some(value),
{
    lemma_decimal_is_read_back(value);
    lemma_decimal_chars(value);
    let number = decimal(value);
    assert forall|i: int| 0 <= i < number.len() implies is_word_char(#[trigger] number[i]) by {
        assert(number[i] == '-' || is_digit(number[i]));
    }
}

proof fn lemma_comment_line(progress: Progress, text: Seq<char>)
    requires
        text.len() >= 2,
        text[0] == '/',
        text[1] == '/',
    ensures
        step(progress, text.push('\r')) == Ok::<Progress, ScriptFault>(progress),
{
    let line = text.push('\r');
    assert(line[0] == '/' && line[1] == '/');
}

proof fn lemma_blank_line(progress: Progress, text: Seq<char>)
    requires
        progress.state is ReadingTop,
        text.len() == 0,
    ensures
        step(progress, text.push('\r')) == Ok::<Progress, ScriptFault>(progress),
{
    let line = text.push('\r');
    assert(is_blank(line));
    lemma_blank_line_parts(line);
}

proof fn lemma_value_line(count: int, brackets: int, value: int)
    requires
        0 <= count < 5,
        i32::MIN <= value <= i32::MAX,
    ensures
        step(at_top(count, brackets), value_line(value_terms()[count], value).push('\r'))
            == Ok::<Progress, ScriptFault>(at_top(count + 1, brackets)),
{
    lemma_terms_are_words();
    lemma_decimal_is_bare(value);
    let name = value_terms()[count];
    let number = decimal(value);
    let line = value_line(name, value).push('\r');
    let none = Seq::<char>::empty();
    assert(line =~= none + name + seq!['\t'] + number + seq!['\r']);
    assert(is_blank(none));
    assert(is_blank(seq!['\t']));
    assert(is_blank(seq!['\r']));
    lemma_two_words_parts(none, name, seq!['\t'], number, seq!['\r']);
    lemma_needed_term_at(value_terms(), flags(5, count), name, 0, count);
    assert(flags(5, count).update(count, false) =~= flags(5, count + 1));
}

proof fn lemma_bracket_line(count: int)
    requires
        0 <= count < 3,
    ensures
        step(at_top(5, count), bracket_terms()[count].push('\r')) == Ok::<
            Progress,
            ScriptFault,
        >(inside(count)),
{
    lemma_terms_are_words();
    let name = bracket_terms()[count];
    let line = name.push('\r');
    let none = Seq::<char>::empty();
    assert(line =~= none + name + seq!['\r']);
    assert(is_blank(none));
    assert(is_blank(seq!['\r']));
    lemma_one_word_parts(none, name, seq!['\r']);
    lemma_needed_term_none(value_terms(), flags(5, 5), name, 0);
    lemma_needed_term_at(bracket_terms(), flags(3, count), name, 0, count);
}

proof fn lemma_open_line(progress: Progress)
    requires
        progress.state is InsideSection,
    ensures
        step(progress, "{"@.push('\r')) == Ok::<Progress, ScriptFault>(progress),
{
    reveal_strlit("{");
    let line = "{"@.push('\r');
    assert(line =~= Seq::<char>::empty() + seq!['{'] + seq!['\r']);
    assert(is_blank(seq!['\r']));
    lemma_brace_parts(Seq::empty(), '{', seq!['\r']);
}

proof fn lemma_close_line(count: int)
    requires
        0 <= count < 3,
    ensures
        step(inside(count), "}"@.push('\r')) == Ok::<Progress, ScriptFault>(
            at_top(5, count + 1),
        ),
{
    reveal_strlit("}");
    let line = "}"@.push('\r');
    assert(line =~= Seq::<char>::empty() + seq!['}'] + seq!['\r']);
    assert(is_blank(seq!['\r']));
    lemma_brace_parts(Seq::empty(), '}', seq!['\r']);
    assert(flags(3, count).update(count, false) =~= flags(3, count + 1));
}

proof fn lemma_entry_line(progress: Progress, text: Seq<char>)
    requires
        progress.state is InsideSection,
        text.len() > 4,
        text[0] == '\t',
        text[text.len() - 3] == '\t',
        text[text.len() - 2] == '\t',
        text[text.len() - 1] == '0',
        forall|i: int| 1 <= i < text.len() - 3 ==> is_word_char(#[trigger] text[i]),
    ensures
        step(progress, text.push('\r')) == Ok::<Progress, ScriptFault>(progress),
{
    let line = text.push('\r');
    let name = text.subrange(1, text.len() - 3);
    let number = seq!['0'];
    assert(line =~= seq!['\t'] + name + seq!['\t', '\t'] + number + seq!['\r']);
    assert(is_blank(seq!['\t']));
    assert(is_blank(seq!['\t', '\t']));
    assert(is_blank(seq!['\r']));
    assert(is_bare(name));
    assert(is_bare(number));
    lemma_two_words_parts(seq!['\t'], name, seq!['\t', '\t'], number, seq!['\r']);
    assert(number.drop_last() =~= Seq::<char>::empty());
    assert(digits_value(number) == 0) by {
        reveal_with_fuel(digits_value, 2);
    }
    assert(whole_number(number) == Some(0int));
}

proof fn lemma_decimal_chars(value: int)
    ensures
        forall|i: int|
            0 <= i < decimal(value).len() ==> (#[trigger] decimal(value)[i]) == '-' || is_digit(
                decimal(value)[i],
            ),
{
    let text = decimal(value);
    if value < 0 {
        let digits = natural_digits((-value) as nat);
        lemma_natural_digits((-value) as nat);
        assert forall|i: int| 0 <= i < text.len() implies (#[trigger] text[i]) == '-' || is_digit(
            text[i],
        ) by {
            if i > 0 {
                assert(text[i] == digits[i - 1]);
            }
        }
    } else {
        lemma_natural_digits(value as nat);
    }
}

proof fn lemma_value_line_holds_no_line_feed(name: Seq<char>, value: int)
    requires
        !name.contains('\n'),
    ensures
        !value_line(name, value).contains('\n'),
{
    let line = value_line(name, value);
    if line.contains('\n') {
        let i = choose|i: int| 0 <= i < line.len() && line[i] == '\n';
        if i < name.len() {
            assert(name[i] == '\n');
            assert(name.contains('\n'));
        } else if i > name.len() {
            lemma_decimal_chars(value);
            let number = decimal(value);
            assert(line[i] == number[i - name.len() - 1]);
        }
    }
}

proof fn lemma_literal_holds_no_line_feed(text: Seq<char>)
    requires
        forall|i: int| 0 <= i < text.len() ==> text[i] != '\n',
    ensures
        !text.contains('\n'),
{
}

proof fn lemma_script_lines_hold_no_line_feed(args: Arguments)
    ensures
        forall|i: int|
            0 <= i < map_script_lines(args).len() ==> !(#[trigger] map_script_lines(args)[i]).contains(
                '\n',
            ),
{
    let script = map_script_lines(args);
    reveal_strlit("");
    reveal_strlit("Gamemode weights used when the map is switched to while playercount is above the team threshold.");
    reveal_strlit("If a gamemode is not listed here or in default.txt it won't be used.");
    reveal_strlit("It will avoid switching between maps with a combined intensity score of 10 or greater to avoid client crashes.");
    reveal_strlit("Map Script File Generated by GE:S Map Release Assistant for 5.0 - Report Any Issues to Entropy-Soldier");
    reveal_strlit("Overrides the default weaponset weights if any sets are specified here.  Can be used as a blacklist.");
    reveal_strlit("Overrides whatever weight is specified in default.txt, if there is one.");
    reveal_strlit("ResIntensity is a measure of how much data in unique assets a map has.");
    reveal_strlit("The BaseWeight of the map controls how likely the map is to be chosen in random selection.");
    reveal_strlit("The baseweight scales with how far the playercount is from the average of MinPlayers and MaxPlayers.");
    reveal_strlit("The game will try not to pick this map when the playercount is outside the range specified here.");
    reveal_strlit("The map will not be chosen if the server playercount is below MinPlayers or above MaxPlayers");
    reveal_strlit("Weights for each gamemode if the map is switched to below the team threshold.");
    reveal_strlit("Will only override weaponsets that are already in rotation, to prevent overriding gamemode specific lists.");
    reveal_strlit("because of this, maps with large ranges are not very likely to be picked at the edges of them.");
    reveal_strlit("\tCaptureTheFlag\t\t0");
    reveal_strlit("\tYOLT\t\t0");
    reveal_strlit("\tslappers\t\t0");
    reveal_strlit("BaseWeight");
    reveal_strlit("MaxPlayers");
    reveal_strlit("MinPlayers");
    reveal_strlit("ResIntensity");
    reveal_strlit("TeamThreshold");
    reveal_strlit("WeaponsetWeights");
    reveal_strlit("GamemodeWeights");
    reveal_strlit("TeamGamemodeWeights");
    reveal_strlit("{");
    reveal_strlit("}");
    lemma_value_line_holds_no_line_feed("BaseWeight"@, args.baseweight as int);
    lemma_value_line_holds_no_line_feed("MaxPlayers"@, args.maxplayers as int);
    lemma_value_line_holds_no_line_feed("MinPlayers"@, args.minplayers as int);
    lemma_value_line_holds_no_line_feed("ResIntensity"@, args.resintensity as int);
    lemma_value_line_holds_no_line_feed("TeamThreshold"@, args.teamthresh as int);
    assert forall|i: int| 0 <= i < script.len() implies !(#[trigger] script[i]).contains(
        '\n',
    ) by {
        if !(10 <= i < 15) {
            lemma_literal_holds_no_line_feed(script[i]);
        }
    }
}

/// Reading the heading of a fresh script: lines 1 to 10.
proof fn lemma_reads_heading(args: Arguments)
    ensures
        scan_from(with_returns(map_script_lines(args)), 0, at_top(0, 0)) == scan_from(
            with_returns(map_script_lines(args)),
            10,
            at_top(0, 0),
        ),
{
    reveal_strlit("");
    let script = map_script_lines(args);
    let read = with_returns(script);
    assert(read[0] == script[0].push('\r'));
    lemma_comment_line(at_top(0, 0), script[0]);
    assert(scan_from(read, 0, at_top(0, 0)) == scan_from(read, 1, at_top(0, 0)));
    assert(read[1] == script[1].push('\r'));
    lemma_blank_line(at_top(0, 0), script[1]);
    assert(scan_from(read, 1, at_top(0, 0)) == scan_from(read, 2, at_top(0, 0)));
    assert(read[2] == script[2].push('\r'));
    lemma_comment_line(at_top(0, 0), script[2]);
    assert(scan_from(read, 2, at_top(0, 0)) == scan_from(read, 3, at_top(0, 0)));
    assert(read[3] == script[3].push('\r'));
    lemma_comment_line(at_top(0, 0), script[3]);
    assert(scan_from(read, 3, at_top(0, 0)) == scan_from(read, 4, at_top(0, 0)));
    assert(read[4] == script[4].push('\r'));
    lemma_comment_line(at_top(0, 0), script[4]);
    assert(scan_from(read, 4, at_top(0, 0)) == scan_from(read, 5, at_top(0, 0)));
    assert(read[5] == script[5].push('\r'));
    lemma_comment_line(at_top(0, 0), script[5]);
    assert(scan_from(read, 5, at_top(0, 0)) == scan_from(read, 6, at_top(0, 0)));
    assert(read[6] == script[6].push('\r'));
    lemma_comment_line(at_top(0, 0), script[6]);
    assert(scan_from(read, 6, at_top(0, 0)) == scan_from(read, 7, at_top(0, 0)));
    assert(read[7] == script[7].push('\r'));
    lemma_comment_line(at_top(0, 0), script[7]);
    assert(scan_from(read, 7, at_top(0, 0)) == scan_from(read, 8, at_top(0, 0)));
    assert(read[8] == script[8].push('\r'));
    lemma_comment_line(at_top(0, 0), script[8]);
    assert(scan_from(read, 8, at_top(0, 0)) == scan_from(read, 9, at_top(0, 0)));
    assert(read[9] == script[9].push('\r'));
    lemma_blank_line(at_top(0, 0), script[9]);
    assert(scan_from(read, 9, at_top(0, 0)) == scan_from(read, 10, at_top(0, 0)));
}

/// Reading the five value terms of a fresh script: lines 11 to 15.
proof fn lemma_reads_values(args: Arguments)
    ensures
        scan_from(with_returns(map_script_lines(args)), 10, at_top(0, 0)) == scan_from(
            with_returns(map_script_lines(args)),
            15,
            at_top(5, 0),
        ),
{
    reveal_strlit("");
    let script = map_script_lines(args);
    let read = with_returns(script);
    assert(read[10] == script[10].push('\r'));
    lemma_value_line(0, 0, args.baseweight as int);
    assert(scan_from(read, 10, at_top(0, 0)) == scan_from(read, 11, at_top(1, 0)));
    assert(read[11] == script[11].push('\r'));
    lemma_value_line(1, 0, args.maxplayers as int);
    assert(scan_from(read, 11, at_top(1, 0)) == scan_from(read, 12, at_top(2, 0)));
    assert(read[12] == script[12].push('\r'));
    lemma_value_line(2, 0, args.minplayers as int);
    assert(scan_from(read, 12, at_top(2, 0)) == scan_from(read, 13, at_top(3, 0)));
    assert(read[13] == script[13].push('\r'));
    lemma_value_line(3, 0, args.resintensity as int);
    assert(scan_from(read, 13, at_top(3, 0)) == scan_from(read, 14, at_top(4, 0)));
    assert(read[14] == script[14].push('\r'));
    lemma_value_line(4, 0, args.teamthresh as int);
    assert(scan_from(read, 14, at_top(4, 0)) == scan_from(read, 15, at_top(5, 0)));
}

/// Reading the section of weaponset weights of a fresh script: lines 16 to 22.
proof fn lemma_reads_weaponsets(args: Arguments)
    ensures
        scan_from(with_returns(map_script_lines(args)), 15, at_top(5, 0)) == scan_from(
            with_returns(map_script_lines(args)),
            22,
            at_top(5, 1),
        ),
{
    reveal_strlit("");
    let script = map_script_lines(args);
    let read = with_returns(script);
    assert(read[15] == script[15].push('\r'));
    lemma_blank_line(at_top(5, 0), script[15]);
    assert(scan_from(read, 15, at_top(5, 0)) == scan_from(read, 16, at_top(5, 0)));
    assert(read[16] == script[16].push('\r'));
    lemma_comment_line(at_top(5, 0), script[16]);
    assert(scan_from(read, 16, at_top(5, 0)) == scan_from(read, 17, at_top(5, 0)));
    assert(read[17] == script[17].push('\r'));
    lemma_comment_line(at_top(5, 0), script[17]);
    assert(scan_from(read, 17, at_top(5, 0)) == scan_from(read, 18, at_top(5, 0)));
    assert(read[18] == script[18].push('\r'));
    lemma_bracket_line(0);
    assert(scan_from(read, 18, at_top(5, 0)) == scan_from(read, 19, inside(0)));
    assert(read[19] == script[19].push('\r'));
    lemma_open_line(inside(0));
    assert(scan_from(read, 19, inside(0)) == scan_from(read, 20, inside(0)));
    assert(read[20] == script[20].push('\r'));
    reveal_strlit("\tslappers\t\t0");
    lemma_entry_line(inside(0), script[20]);
    assert(scan_from(read, 20, inside(0)) == scan_from(read, 21, inside(0)));
    assert(read[21] == script[21].push('\r'));
    lemma_close_line(0);
    assert(scan_from(read, 21, inside(0)) == scan_from(read, 22, at_top(5, 1)));
}

/// Reading the section of gamemode weights of a fresh script: lines 23 to 30.
proof fn lemma_reads_gamemodes(args: Arguments)
    ensures
        scan_from(with_returns(map_script_lines(args)), 22, at_top(5, 1)) == scan_from(
            with_returns(map_script_lines(args)),
            30,
            at_top(5, 2),
        ),
{
    reveal_strlit("");
    let script = map_script_lines(args);
    let read = with_returns(script);
    assert(read[22] == script[22].push('\r'));
    lemma_blank_line(at_top(5, 1), script[22]);
    assert(scan_from(read, 22, at_top(5, 1)) == scan_from(read, 23, at_top(5, 1)));
    assert(read[23] == script[23].push('\r'));
    lemma_comment_line(at_top(5, 1), script[23]);
    assert(scan_from(read, 23, at_top(5, 1)) == scan_from(read, 24, at_top(5, 1)));
    assert(read[24] == script[24].push('\r'));
    lemma_comment_line(at_top(5, 1), script[24]);
    assert(scan_from(read, 24, at_top(5, 1)) == scan_from(read, 25, at_top(5, 1)));
    assert(read[25] == script[25].push('\r'));
    lemma_comment_line(at_top(5, 1), script[25]);
    assert(scan_from(read, 25, at_top(5, 1)) == scan_from(read, 26, at_top(5, 1)));
    assert(read[26] == script[26].push('\r'));
    lemma_bracket_line(1);
    assert(scan_from(read, 26, at_top(5, 1)) == scan_from(read, 27, inside(1)));
    assert(read[27] == script[27].push('\r'));
    lemma_open_line(inside(1));
    assert(scan_from(read, 27, inside(1)) == scan_from(read, 28, inside(1)));
    assert(read[28] == script[28].push('\r'));
    reveal_strlit("\tYOLT\t\t0");
    lemma_entry_line(inside(1), script[28]);
    assert(scan_from(read, 28, inside(1)) == scan_from(read, 29, inside(1)));
    assert(read[29] == script[29].push('\r'));
    lemma_close_line(1);
    assert(scan_from(read, 29, inside(1)) == scan_from(read, 30, at_top(5, 2)));
}

/// Reading the section of team gamemode weights of a fresh script: lines 31 to 37.
proof fn lemma_reads_team_gamemodes(args: Arguments)
    ensures
        scan_from(with_returns(map_script_lines(args)), 30, at_top(5, 2)) == scan_from(
            with_returns(map_script_lines(args)),
            37,
            at_top(5, 3),
        ),
{
    reveal_strlit("");
    let script = map_script_lines(args);
    let read = with_returns(script);
    assert(read[30] == script[30].push('\r'));
    lemma_blank_line(at_top(5, 2), script[30]);
    assert(scan_from(read, 30, at_top(5, 2)) == scan_from(read, 31, at_top(5, 2)));
    assert(read[31] == script[31].push('\r'));
    lemma_comment_line(at_top(5, 2), script[31]);
    assert(scan_from(read, 31, at_top(5, 2)) == scan_from(read, 32, at_top(5, 2)));
    assert(read[32] == script[32].push('\r'));
    lemma_bracket_line(2);
    assert(scan_from(read, 32, at_top(5, 2)) == scan_from(read, 33, inside(2)));
    assert(read[33] == script[33].push('\r'));
    lemma_open_line(inside(2));
    assert(scan_from(read, 33, inside(2)) == scan_from(read, 34, inside(2)));
    assert(read[34] == script[34].push('\r'));
    reveal_strlit("\tCaptureTheFlag\t\t0");
    lemma_entry_line(inside(2), script[34]);
    assert(scan_from(read, 34, inside(2)) == scan_from(read, 35, inside(2)));
    assert(read[35] == script[35].push('\r'));
    lemma_close_line(2);
    assert(scan_from(read, 35, inside(2)) == scan_from(read, 36, at_top(5, 3)));
    assert(read[36] == script[36].push('\r'));
    lemma_blank_line(at_top(5, 3), script[36]);
    assert(scan_from(read, 36, at_top(5, 3)) == scan_from(read, 37, at_top(5, 3)));
}

/// Writing, then checking: the map script written for any parameters is
/// accepted.
pub proof fn lemma_created_map_script_is_valid(args: Arguments)
    ensures
        map_script_verdict(map_script_text(args)) is Ok,
{
    let script = map_script_lines(args);
    lemma_script_lines_hold_no_line_feed(args);
    lemma_lines_of_joined(script);
    let read = with_returns(script);
    assert(read.subrange(0, read.len() as int) =~= read);
    lemma_scan_from(read, 0, start());
    assert(start().values_needed =~= flags(5, 0));
    assert(start().brackets_needed =~= flags(3, 0));
    assert(start() == at_top(0, 0));
    lemma_reads_heading(args);
    lemma_reads_values(args);
    lemma_reads_weaponsets(args);
    lemma_reads_gamemodes(args);
    lemma_reads_team_gamemodes(args);
    assert(read.len() == 37);
    assert(scan_from(read, 37, at_top(5, 3)) == finish(at_top(5, 3)));
    lemma_nothing_needed(value_terms(), flags(5, 5), 5);
    lemma_nothing_needed(bracket_terms(), flags(3, 3), 3);
}

} // verus!
