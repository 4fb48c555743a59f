//! The arguments of a run: how they are made of what was given on the
//! command line, and the rules that they must meet before any work begins.

use crate::paths::{
    extension_start, find_extension, find_last_component, find_name_start, last_component,
    lemma_extension_start, lemma_name_before_extension, name_start,
};
use crate::text::{chars_equal, from_chars, parse_whole_number, strings, to_chars, whole_number};
use vstd::prelude::*;
use vstd::slice::slice_subrange;

verus! {

/// The core arguments of the program.
#[derive(Clone, Debug)]
pub struct Arguments {
    /// The root directory of the release.
    pub rootdir: String,
    /// The root directory of the installation.
    pub gesdir: String,
    pub baseweight: i32,
    pub minplayers: i32,
    pub maxplayers: i32,
    pub resintensity: i32,
    pub teamthresh: i32,
    pub compress: bool,
    pub recompress: bool,
    pub verbose: bool,
    pub fullcheck: bool,
    pub noexitprompt: bool,
}

/// What was given on the command line, before any default is filled in.
#[derive(Debug)]
pub struct GivenArguments {
    pub rootdir: Option<String>,
    pub gesdir: Option<String>,
    pub weight: Option<String>,
    pub minplayers: Option<String>,
    pub maxplayers: Option<String>,
    pub resintensity: Option<String>,
    pub teamthresh: Option<String>,
    pub fullcheck: bool,
    pub compress: bool,
    pub recompress: bool,
    pub verbose: bool,
    pub noexitprompt: bool,
}

/// The numbers of a map script that the command line can set.
#[derive(Clone, Copy, Debug, PartialEq, Eq, Structural)]
pub enum Setting {
    BaseWeight,
    MinPlayers,
    MaxPlayers,
    ResIntensity,
    TeamThreshold,
}

/// The value that a setting has where none is given, or none that is a whole
/// number.
pub open spec fn default_of(setting: Setting) -> int {
    match setting {
        Setting::BaseWeight => 500,
        Setting::MinPlayers => 0,
        Setting::MaxPlayers => 16,
        Setting::ResIntensity => 7,
        Setting::TeamThreshold => 12,
    }
}

/// The text of an optional string.
pub open spec fn given_text(given: Option<String>) -> Option<Seq<char>> {
    match given {
        Some(text) => Some(text@),
        None => None,
    }
}

/// The value of a setting: the number that was given, if one was given and
/// it is a whole number, and else the default.
pub open spec fn setting_value(setting: Setting, given: Option<Seq<char>>) -> int {
    match given {
        Some(text) => match whole_number(text) {
            Some(number) => number,
            None => default_of(setting),
        },
        None => default_of(setting),
    }
}

/// Whether what was given for a setting is set aside: something was given,
/// and it is no whole number.
pub open spec fn is_set_aside(given: Option<Seq<char>>) -> bool {
    given matches Some(text) && whole_number(text) is None
}

/// Those of the first `upto` settings, in the order base weight, least and
/// most players, intensity, team threshold, for which what was given is set
/// aside.
pub open spec fn set_aside(given: GivenArguments, upto: int) -> Seq<Setting> {
    let weight = if upto >= 1 && is_set_aside(given_text(given.weight)) {
        seq![Setting::BaseWeight]
    } else {
        Seq::empty()
    };
    let minplayers = if upto >= 2 && is_set_aside(given_text(given.minplayers)) {
        seq![Setting::MinPlayers]
    } else {
        Seq::empty()
    };
    let maxplayers = if upto >= 3 && is_set_aside(given_text(given.maxplayers)) {
        seq![Setting::MaxPlayers]
    } else {
        Seq::empty()
    };
    let resintensity = if upto >= 4 && is_set_aside(given_text(given.resintensity)) {
        seq![Setting::ResIntensity]
    } else {
        Seq::empty()
    };
    let teamthresh = if upto >= 5 && is_set_aside(given_text(given.teamthresh)) {
        seq![Setting::TeamThreshold]
    } else {
        Seq::empty()
    };
    weight + minplayers + maxplayers + resintensity + teamthresh
}

/// The directory of the installation: the one that was given, and else the
/// one that was found.
pub open spec fn chosen_gesdir(given: GivenArguments, detected_gesdir: Seq<char>) -> Seq<char> {
    match given.gesdir {
        Some(dir) => dir@,
        None => detected_gesdir,
    }
}

/// The root directory of the work: in a check of a whole installation, the
/// directory of the installation; else the one that was given, or the
/// current directory where none was.
pub open spec fn chosen_rootdir(
    given: GivenArguments,
    current_dir: Seq<char>,
    detected_gesdir: Seq<char>,
) -> Seq<char> {
    if given.fullcheck {
        chosen_gesdir(given, detected_gesdir)
    } else {
        match given.rootdir {
            Some(dir) => dir@,
            None => current_dir,
        }
    }
}

fn read_setting(
    setting: Setting,
    given: &Option<String>,
    fallback: i32,
    set_aside: &mut Vec<Setting>,
) -> (r: i32)
    requires
        fallback == default_of(setting),
    ensures
        r == setting_value(setting, given_text(*given)),
        final(set_aside)@ == if is_set_aside(given_text(*given)) {
            old(set_aside)@.push(setting)
        } else {
            old(set_aside)@
        },
{
    match given {
        None => fallback,
        Some(text) => {
            let chars = to_chars(text.as_str());
            match parse_whole_number(chars.as_slice()) {
                Some(number) => number,
                None => {
                    set_aside.push(setting);
                    fallback
                },
            }
        },
    }
}

/// Collects the arguments from what was given on the command line.
///
/// `current_dir` is the directory the program runs in, and `detected_gesdir`
/// the directory in which an installation is looked for where none is given.
/// A number that is not given, or that is no whole number, has its default;
/// the settings for which a given text was set aside are returned with the
/// arguments. Recompression implies compression.
pub fn parse_arguments(given: &GivenArguments, current_dir: &str, detected_gesdir: &str) -> (r: (
    Arguments,
    Vec<Setting>,
))
    ensures
        r.0.gesdir@ == chosen_gesdir(*given, detected_gesdir@),
        r.0.rootdir@ == chosen_rootdir(*given, current_dir@, detected_gesdir@),
        r.0.baseweight == setting_value(Setting::BaseWeight, given_text(given.weight)),
        r.0.minplayers == setting_value(Setting::MinPlayers, given_text(given.minplayers)),
        r.0.maxplayers == setting_value(Setting::MaxPlayers, given_text(given.maxplayers)),
        r.0.resintensity == setting_value(Setting::ResIntensity, given_text(given.resintensity)),
        r.0.teamthresh == setting_value(Setting::TeamThreshold, given_text(given.teamthresh)),
        r.0.compress == (given.compress || given.recompress),
        r.0.recompress == given.recompress,
        r.0.verbose == given.verbose,
        r.0.fullcheck == given.fullcheck,
        r.0.noexitprompt == given.noexitprompt,
        r.1@ == set_aside(*given, 5),
{
    let gesdir = match &given.gesdir {
        Some(dir) => dir.clone(),
        None => String::from_str(detected_gesdir),
    };
    let rootdir = if given.fullcheck {
        gesdir.clone()
    } else {
        match &given.rootdir {
            Some(dir) => dir.clone(),
            None => String::from_str(current_dir),
        }
    };
    let mut warnings: Vec<Setting> = Vec::new();
    let baseweight = read_setting(Setting::BaseWeight, &given.weight, 500, &mut warnings);
    let minplayers = read_setting(Setting::MinPlayers, &given.minplayers, 0, &mut warnings);
    let maxplayers = read_setting(Setting::MaxPlayers, &given.maxplayers, 16, &mut warnings);
    let resintensity = read_setting(Setting::ResIntensity, &given.resintensity, 7, &mut warnings);
    let teamthresh = read_setting(Setting::TeamThreshold, &given.teamthresh, 12, &mut warnings);
    assert(warnings@ =~= set_aside(*given, 5));
    (
        Arguments {
            rootdir,
            gesdir,
            baseweight,
            minplayers,
            maxplayers,
            resintensity,
            teamthresh,
            compress: given.compress || given.recompress,
            recompress: given.recompress,
            verbose: given.verbose,
            fullcheck: given.fullcheck,
            noexitprompt: given.noexitprompt,
        },
        warnings,
    )
}

/// The name of a map file: what stands before the extension in the last
/// component of its path, if the extension is `bsp`.
pub open spec fn map_stem(path: Seq<char>) -> Option<Seq<char>> {
    match extension_start(path) {
        Some(start) => if path.subrange(start, path.len() as int) == "bsp"@ {
            Some(path.subrange(name_start(path, path.len() as int), start - 1))
        } else {
            None
        },
        None => None,
    }
}

/// The name of the first map file at or after `from`; `invalid` where there
/// is none.
pub open spec fn map_name(files: Seq<Seq<char>>, from: int) -> Seq<char>
    decreases files.len() - from,
{
    if 0 <= from < files.len() {
        match map_stem(files[from]) {
            Some(name) => name,
            None => map_name(files, from + 1),
        }
    } else {
        "invalid"@
    }
}

/// Infers the name of the map from the files of the maps directory of the
/// release, in the order in which the directory lists them: the name of the
/// first file with the extension `bsp`. Without such a file the name is
/// `invalid`.
pub fn get_map_name(maps_dir_files: &Vec<String>) -> (r: String)
    ensures
        r@ == map_name(strings(maps_dir_files@), 0),
{
    let wanted = to_chars("bsp");
    let mut i: usize = 0;
    while i < maps_dir_files.len()
        invariant
            i <= maps_dir_files.len(),
            wanted@ == "bsp"@,
            map_name(strings(maps_dir_files@), 0) == map_name(
                strings(maps_dir_files@),
                i as int,
            ),
        decreases maps_dir_files.len() - i,
    {
        let path = to_chars(maps_dir_files[i].as_str());
        assert(path@ == strings(maps_dir_files@)[i as int]);
        match find_extension(path.as_slice()) {
            Some(start) => {
                proof {
                    lemma_extension_start(path@);
                    lemma_name_before_extension(path@);
                }
                let extension = slice_subrange(path.as_slice(), start, path.len());
                if chars_equal(extension, wanted.as_slice()) {
                    let begin = find_name_start(path.as_slice());
                    return from_chars(slice_subrange(path.as_slice(), begin, start - 1));
                }
            },
            None => {},
        }
        i += 1;
    }
    String::from_str("invalid")
}

/// What the disk holds where the arguments point, as far as the rules on
/// the arguments ask.
#[derive(Clone, Copy, Debug)]
pub struct DirectoryFacts {
    /// The root directory of the release is a directory.
    pub rootdir_is_dir: bool,
    /// The root directory of the release is a file.
    pub rootdir_is_file: bool,
    /// The release has a maps directory.
    pub mapsdir_is_dir: bool,
    /// The maps directory holds the map file.
    pub map_is_file: bool,
    /// The release has a music directory below its sound directory.
    pub musicdir_is_dir: bool,
    /// The directory of the installation is a directory.
    pub gesdir_is_dir: bool,
    /// The directory of the installation is a file.
    pub gesdir_is_file: bool,
    /// The directory of the installation holds the file that marks an
    /// installation.
    pub ges_file_is_file: bool,
}

/// Why the arguments cannot be worked with.
#[derive(Clone, Copy, Debug, PartialEq, Eq, Structural)]
pub enum ArgumentError {
    RootIsFile,
    RootNotDirectory,
    RootNotNamedGesource,
    RootHasNoName,
    NoMapsDirectory,
    NoMapFile,
    GesdirIsFile,
    GesdirNotDirectory,
    NotAnInstallation,
}

/// What the user is warned of before the work begins.
#[derive(Clone, Copy, Debug, PartialEq, Eq, Structural)]
pub enum ArgumentWarning {
    NoMusicDirectory,
    CompressIgnored,
    GesdirIsFile,
    GesdirNotDirectory,
    LimitedFeatures,
    MinAboveMax,
    PlayerRangeImpossible,
    ResIntensityTooLow,
    ResIntensityTooHigh,
}

/// What is wrong with the root directory of a release, if anything: it must
/// be a directory named `gesource` that holds a maps directory with the map
/// in it.
pub open spec fn release_fault(rootdir: Seq<char>, facts: DirectoryFacts) -> Option<
    ArgumentError,
> {
    if !facts.rootdir_is_dir {
        if facts.rootdir_is_file {
            Some(ArgumentError::RootIsFile)
        } else {
            Some(ArgumentError::RootNotDirectory)
        }
    } else {
        match last_component(rootdir) {
            None => Some(ArgumentError::RootHasNoName),
            Some(name) => if name != "gesource"@ {
                Some(ArgumentError::RootNotNamedGesource)
            } else if !facts.mapsdir_is_dir {
                Some(ArgumentError::NoMapsDirectory)
            } else if !facts.map_is_file {
                Some(ArgumentError::NoMapFile)
            } else {
                None
            },
        }
    }
}

/// What is wrong with the directory of the installation, if anything. A
/// directory must hold the file that marks an installation. Something that
/// is no directory is a fault only in a check of a whole installation.
pub open spec fn installation_fault(fullcheck: bool, facts: DirectoryFacts) -> Option<
    ArgumentError,
> {
    if facts.gesdir_is_dir {
        if facts.ges_file_is_file {
            None
        } else {
            Some(ArgumentError::NotAnInstallation)
        }
    } else if !fullcheck {
        None
    } else if facts.gesdir_is_file {
        Some(ArgumentError::GesdirIsFile)
    } else {
        Some(ArgumentError::GesdirNotDirectory)
    }
}

/// The warnings about the directories, in the order in which they are
/// given.
pub open spec fn directory_warnings(args: Arguments, facts: DirectoryFacts) -> Seq<
    ArgumentWarning,
> {
    let first = if args.fullcheck {
        if args.compress {
            seq![ArgumentWarning::CompressIgnored]
        } else {
            Seq::empty()
        }
    } else if !facts.musicdir_is_dir {
        seq![ArgumentWarning::NoMusicDirectory]
    } else {
        Seq::empty()
    };
    let second = if facts.gesdir_is_dir {
        Seq::empty()
    } else if facts.gesdir_is_file {
        seq![ArgumentWarning::GesdirIsFile, ArgumentWarning::LimitedFeatures]
    } else {
        seq![ArgumentWarning::GesdirNotDirectory, ArgumentWarning::LimitedFeatures]
    };
    first + second
}

/// The warnings about the numbers, in the order in which they are given.
pub open spec fn number_warnings(args: Arguments) -> Seq<ArgumentWarning> {
    let players = if args.minplayers > args.maxplayers {
        seq![ArgumentWarning::MinAboveMax]
    } else if args.maxplayers < 0 || args.minplayers > 16 {
        seq![ArgumentWarning::PlayerRangeImpossible]
    } else {
        Seq::empty()
    };
    let intensity = if args.resintensity <= 0 {
        seq![ArgumentWarning::ResIntensityTooLow]
    } else if args.resintensity > 8 {
        seq![ArgumentWarning::ResIntensityTooHigh]
    } else {
        Seq::empty()
    };
    players + intensity
}

/// The verdict on the arguments: the first fault, of the release unless a
/// whole installation is checked, then of the installation; and without a
/// fault, the warnings.
pub open spec fn arguments_verdict(args: Arguments, facts: DirectoryFacts) -> Result<
    Seq<ArgumentWarning>,
    ArgumentError,
> {
    let release = if args.fullcheck {
        None
    } else {
        release_fault(args.rootdir@, facts)
    };
    match release {
        Some(fault) => Err(fault),
        None => match installation_fault(args.fullcheck, facts) {
            Some(fault) => Err(fault),
            None => Ok(directory_warnings(args, facts) + number_warnings(args)),
        },
    }
}

fn check_release(rootdir: &str, facts: &DirectoryFacts) -> (r: Option<ArgumentError>)
    ensures
        r == release_fault(rootdir@, *facts),
{
    if !facts.rootdir_is_dir {
        if facts.rootdir_is_file {
            return Some(ArgumentError::RootIsFile);
        } else {
            return Some(ArgumentError::RootNotDirectory);
        }
    }
    let path = to_chars(rootdir);
    match find_last_component(path.as_slice()) {
        None => Some(ArgumentError::RootHasNoName),
        Some((start, end)) => {
            let name = slice_subrange(path.as_slice(), start, end);
            let wanted = to_chars("gesource");
            if !chars_equal(name, wanted.as_slice()) {
                Some(ArgumentError::RootNotNamedGesource)
            } else if !facts.mapsdir_is_dir {
                Some(ArgumentError::NoMapsDirectory)
            } else if !facts.map_is_file {
                Some(ArgumentError::NoMapFile)
            } else {
                None
            }
        },
    }
}

/// Makes sure that all the arguments are valid and make sense, given what
/// the disk holds where they point. Returns the warnings that the user is
/// owed, in their order, or the first fault.
pub fn check_arguments(args: &Arguments, facts: &DirectoryFacts) -> (r: Result<
    Vec<ArgumentWarning>,
    ArgumentError,
>)
    ensures
        match r {
            Ok(warnings) => arguments_verdict(*args, *facts) == Ok::<
                Seq<ArgumentWarning>,
                ArgumentError,
            >(warnings@),
            Err(fault) => arguments_verdict(*args, *facts) == Err::<
                Seq<ArgumentWarning>,
                ArgumentError,
            >(fault),
        },
{
    let mut warnings: Vec<ArgumentWarning> = Vec::new();
    if !args.fullcheck {
        match check_release(args.rootdir.as_str(), facts) {
            Some(fault) => {
                return Err(fault);
            },
            None => {},
        }
        if !facts.musicdir_is_dir {
            warnings.push(ArgumentWarning::NoMusicDirectory);
        }
    } else if args.compress {
        warnings.push(ArgumentWarning::CompressIgnored);
    }
    if !facts.gesdir_is_dir {
        if facts.gesdir_is_file {
            if args.fullcheck {
                return Err(ArgumentError::GesdirIsFile);
            }
            warnings.push(ArgumentWarning::GesdirIsFile);
        } else {
            if args.fullcheck {
                return Err(ArgumentError::GesdirNotDirectory);
            }
            warnings.push(ArgumentWarning::GesdirNotDirectory);
        }
        warnings.push(ArgumentWarning::LimitedFeatures);
    } else if !facts.ges_file_is_file {
        return Err(ArgumentError::NotAnInstallation);
    }
    assert(warnings@ =~= directory_warnings(*args, *facts));
    if args.minplayers > args.maxplayers {
        warnings.push(ArgumentWarning::MinAboveMax);
    } else if args.maxplayers < 0 || args.minplayers > 16 {
        warnings.push(ArgumentWarning::PlayerRangeImpossible);
    }
    if args.resintensity <= 0 {
        warnings.push(ArgumentWarning::ResIntensityTooLow);
    } else if args.resintensity > 8 {
        warnings.push(ArgumentWarning::ResIntensityTooHigh);
    }
    assert(warnings@ =~= directory_warnings(*args, *facts) + number_warnings(*args));
    Ok(warnings)
}

/// The words in which a fault of the arguments is reported.
pub open spec fn fault_text(fault: ArgumentError) -> Seq<char> {
    match fault {
        ArgumentError::RootIsFile =>
            "Supplied root directory is a file, not a directory!  Aborting!"@,
        ArgumentError::RootNotDirectory =>
            "Supplied root directory isn't a valid directory with write access!  Aborting!"@,
        ArgumentError::RootNotNamedGesource => "Root directory must end in \"gesource\"!"@,
        ArgumentError::RootHasNoName => "Root directory must have an ending!"@,
        ArgumentError::NoMapsDirectory => "Root directory has no maps directory!"@,
        ArgumentError::NoMapFile =>
            "Failed to locate any readable .bsp files in maps directory!"@,
        ArgumentError::GesdirIsFile =>
            "Supplied GE:S directory is a file, not a directory!  This is needed for fullcheck mode."@,
        ArgumentError::GesdirNotDirectory =>
            "Supplied or Autodetected GE:S directory isn't a valid directory with write access!  This is needed for fullcheck mode."@,
        ArgumentError::NotAnInstallation =>
            "GE:S directory is not the root directory of a valid GE:S installation!"@,
    }
}

/// The words of a warning.
pub open spec fn warning_text(warning: ArgumentWarning) -> Seq<char> {
    match warning {
        ArgumentWarning::NoMusicDirectory =>
            "[Warning] Root directory has no music directory!  A default music file will be provided."@,
        ArgumentWarning::CompressIgnored =>
            "[Warning] Cannot compress directory in fullcheck mode but compress flag is set!\nThe compression flag will be ignored."@,
        ArgumentWarning::GesdirIsFile =>
            "[Warning] Supplied GE:S directory is a file, not a directory!"@,
        ArgumentWarning::GesdirNotDirectory =>
            "[Warning] Supplied or Autodetected GE:S directory isn't a valid directory with write access!"@,
        ArgumentWarning::LimitedFeatures =>
            "Without a GoldenEye: Source installation to reference, some program features will be limited."@,
        ArgumentWarning::MinAboveMax =>
            "[Warning] Minplayers is greater than maxplayers!  Your map will never be picked for normal rotation."@,
        ArgumentWarning::PlayerRangeImpossible =>
            "[Warning] Your player range is outside the possible range of playercounts.  Your map will never be picked for normal rotation."@,
        ArgumentWarning::ResIntensityTooLow =>
            "[Warning] Your resintensity is an impossibly low value!  While this will make servers switch to it more often, it will also cause client crashes."@,
        ArgumentWarning::ResIntensityTooHigh =>
            "[Warning] Your resintensity is incredibly high!  If your map really has > 400MB worth of assets it needs to load into RAM it would be best to cut some content instead of setting this value above 8."@,
    }
}

impl ArgumentError {
    /// The words in which this fault is reported.
    pub fn message(&self) -> (r: String)
        ensures
            r@ == fault_text(*self),
    {
        match self {
            ArgumentError::RootIsFile => String::from_str(
                "Supplied root directory is a file, not a directory!  Aborting!",
            ),
            ArgumentError::RootNotDirectory => String::from_str(
                "Supplied root directory isn't a valid directory with write access!  Aborting!",
            ),
            ArgumentError::RootNotNamedGesource => String::from_str(
                "Root directory must end in \"gesource\"!",
            ),
            ArgumentError::RootHasNoName => String::from_str("Root directory must have an ending!"),
            ArgumentError::NoMapsDirectory => String::from_str(
                "Root directory has no maps directory!",
            ),
            ArgumentError::NoMapFile => String::from_str(
                "Failed to locate any readable .bsp files in maps directory!",
            ),
            ArgumentError::GesdirIsFile => String::from_str(
                "Supplied GE:S directory is a file, not a directory!  This is needed for fullcheck mode.",
            ),
            ArgumentError::GesdirNotDirectory => String::from_str(
                "Supplied or Autodetected GE:S directory isn't a valid directory with write access!  This is needed for fullcheck mode.",
            ),
            ArgumentError::NotAnInstallation => String::from_str(
                "GE:S directory is not the root directory of a valid GE:S installation!",
            ),
        }
    }
}

impl ArgumentWarning {
    /// The words of this warning.
    pub fn message(&self) -> (r: String)
        ensures
            r@ == warning_text(*self),
    {
        match self {
            ArgumentWarning::NoMusicDirectory => String::from_str(
                "[Warning] Root directory has no music directory!  A default music file will be provided.",
            ),
            ArgumentWarning::CompressIgnored => String::from_str(
                "[Warning] Cannot compress directory in fullcheck mode but compress flag is set!\nThe compression flag will be ignored.",
            ),
            ArgumentWarning::GesdirIsFile => String::from_str(
                "[Warning] Supplied GE:S directory is a file, not a directory!",
            ),
            ArgumentWarning::GesdirNotDirectory => String::from_str(
                "[Warning] Supplied or Autodetected GE:S directory isn't a valid directory with write access!",
            ),
            ArgumentWarning::LimitedFeatures => String::from_str(
                "Without a GoldenEye: Source installation to reference, some program features will be limited.",
            ),
            ArgumentWarning::MinAboveMax => String::from_str(
                "[Warning] Minplayers is greater than maxplayers!  Your map will never be picked for normal rotation.",
            ),
            ArgumentWarning::PlayerRangeImpossible => String::from_str(
                "[Warning] Your player range is outside the possible range of playercounts.  Your map will never be picked for normal rotation.",
            ),
            ArgumentWarning::ResIntensityTooLow => String::from_str(
                "[Warning] Your resintensity is an impossibly low value!  While this will make servers switch to it more often, it will also cause client crashes.",
            ),
            ArgumentWarning::ResIntensityTooHigh => String::from_str(
                "[Warning] Your resintensity is incredibly high!  If your map really has > 400MB worth of assets it needs to load into RAM it would be best to cut some content instead of setting this value above 8.",
            ),
        }
    }
}

/// The name under which a setting is spoken of.
pub open spec fn setting_name(setting: Setting) -> Seq<char> {
    match setting {
        Setting::BaseWeight => "baseweight"@,
        Setting::MinPlayers => "minplayers"@,
        Setting::MaxPlayers => "maxplayers"@,
        Setting::ResIntensity => "resintensity"@,
        Setting::TeamThreshold => "teamthresh"@,
    }
}

impl Setting {
    /// The name under which this setting is spoken of.
    pub fn name(&self) -> (r: &'static str)
        ensures
            r@ == setting_name(*self),
    {
        match self {
            Setting::BaseWeight => "baseweight",
            Setting::MinPlayers => "minplayers",
            Setting::MaxPlayers => "maxplayers",
            Setting::ResIntensity => "resintensity",
            Setting::TeamThreshold => "teamthresh",
        }
    }

    /// The value of this setting where none is given.
    pub fn default_value(&self) -> (r: i32)
        ensures
            r == default_of(*self),
    {
        match self {
            Setting::BaseWeight => 500,
            Setting::MinPlayers => 0,
            Setting::MaxPlayers => 16,
            Setting::ResIntensity => 7,
            Setting::TeamThreshold => 12,
        }
    }
}

} // verus!
