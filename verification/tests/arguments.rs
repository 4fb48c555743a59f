use ges_mapreleaser::argument_handler::{
    check_arguments, get_map_name, parse_arguments, ArgumentError, ArgumentWarning, Arguments,
    DirectoryFacts, GivenArguments, Setting,
};
use ges_mapreleaser::orchestrator::{exit_code, INVALID_ARGUMENTS};
use ges_mapreleaser::shared::{get_barebones_args, get_root_test_directory};

const PROJECT: &str = "project";

/// The sample files: a release and an installation below the directory of
/// the samples.
fn sample_files() -> Vec<String> {
    let tests = get_root_test_directory(PROJECT);
    [
        "rootdir/gesource/maps/test_map.bsp",
        "rootdir/gesource/maps/test_map.res",
        "rootdir/gesource/scripts/maps/test_map.txt",
        "rootdir/gesource/sound/music/test_track.mp3",
        "gesdir/gesource/goldeneye.fgd",
        "gesdir/gesource/maps/ge_archives.bsp",
        "gesdir/gesource/scripts/maps/ge_archives.txt",
        "gesdir/gesource/sound/music/classy.mp3",
    ]
    .iter()
    .map(|file| format!("{}/{}", tests, file))
    .collect()
}

fn is_file(files: &[String], path: &str) -> bool {
    files.iter().any(|file| file == path)
}

fn is_dir(files: &[String], path: &str) -> bool {
    files.iter().any(|file| file.starts_with(&format!("{}/", path)))
}

/// What the sample files hold where the arguments point.
fn look_at(files: &[String], args: &Arguments, map_name: &str) -> DirectoryFacts {
    DirectoryFacts {
        rootdir_is_dir: is_dir(files, &args.rootdir),
        rootdir_is_file: is_file(files, &args.rootdir),
        mapsdir_is_dir: is_dir(files, &format!("{}/maps", args.rootdir)),
        map_is_file: is_file(files, &format!("{}/maps/{}.bsp", args.rootdir, map_name)),
        musicdir_is_dir: is_dir(files, &format!("{}/sound/music", args.rootdir)),
        gesdir_is_dir: is_dir(files, &args.gesdir),
        gesdir_is_file: is_file(files, &args.gesdir),
        ges_file_is_file: is_file(files, &format!("{}/goldeneye.fgd", args.gesdir)),
    }
}

fn checked(args: &Arguments, map_name: &str) -> Result<Vec<ArgumentWarning>, ArgumentError> {
    check_arguments(args, &look_at(&sample_files(), args, map_name))
}

/// What the disk holds for the sample release and the sample installation.
fn sample_facts() -> DirectoryFacts {
    look_at(&sample_files(), &get_barebones_args(PROJECT), "test_map")
}

#[test]
fn test_barebones_argument_set() {
    // Our barebones args are a valid set and as such should unwrap correctly.
    checked(&get_barebones_args(PROJECT), "test_map").unwrap();
}

#[test]
fn test_fullcheck_argument_set() {
    // Our barebones args are a valid set even with fullcheck.
    let mut args = get_barebones_args(PROJECT);
    args.fullcheck = true;

    checked(&args, "test_map").unwrap();
}

#[test]
fn test_invalid_fullcheck_argument_set() {
    // rootdir is not a valid gesdir so this check should fail.
    let mut args = get_barebones_args(PROJECT);
    args.fullcheck = true;
    args.gesdir = args.rootdir.clone();

    assert!(checked(&args, "test_map").is_err());
}

#[test]
fn test_non_ges_rootdir_argument_set() {
    // The rootdir must be a directory named "gesource".
    let mut args = get_barebones_args(PROJECT);
    args.rootdir = get_root_test_directory(PROJECT);

    assert!(checked(&args, "test_map").is_err());
    assert_eq!(check_arguments(&args, &sample_facts()), Err(ArgumentError::RootNotNamedGesource));
}

#[test]
fn test_fullcheck_with_no_rootdir_argument_set() {
    // The rootdir plays no part in fullcheck mode.
    let mut args = get_barebones_args(PROJECT);
    args.fullcheck = true;
    args.rootdir = get_root_test_directory(PROJECT);

    checked(&args, "test_map").unwrap();
}

#[test]
fn test_non_gesource_gesdir_argument_set() {
    // The gesdir must hold an installation, which the sample directory does not.
    let mut args = get_barebones_args(PROJECT);
    args.fullcheck = true;
    args.gesdir = get_root_test_directory(PROJECT);

    assert!(checked(&args, "test_map").is_err());
}

#[test]
fn test_invalid_gesdir_argument_set() {
    // The gesdir must have certain files in it, which rootdir doesn't have.
    let mut args = get_barebones_args(PROJECT);
    args.fullcheck = true;
    args.gesdir = args.rootdir.clone();

    assert!(checked(&args, "test_map").is_err());
}

#[test]
fn test_get_map_name() {
    let maps: Vec<String> = sample_files()
        .into_iter()
        .filter(|file| file.contains("/rootdir/gesource/maps/"))
        .collect();
    assert_eq!(get_map_name(&maps), "test_map");
}

#[test]
fn release_without_its_map_is_a_fault() {
    assert_eq!(checked(&get_barebones_args(PROJECT), "other_map"), Err(ArgumentError::NoMapFile));
}

#[test]
fn map_name_is_that_of_the_first_map_file() {
    assert_eq!(get_map_name(&Vec::new()), "invalid");
    assert_eq!(get_map_name(&vec![String::from("maps/readme.txt")]), "invalid");
    assert_eq!(get_map_name(&vec![String::from("maps/upper.BSP")]), "invalid");
    assert_eq!(get_map_name(&vec![String::from("maps/.bsp")]), "invalid");
    assert_eq!(get_map_name(&vec![String::from("maps\\ge_dam.v2.bsp")]), "ge_dam.v2");
    assert_eq!(get_map_name(&vec![String::from("a.bsp"), String::from("b.bsp")]), "a");
    assert_eq!(get_map_name(&vec![String::from("bsp"), String::from("x/.y.bsp")]), ".y");
}

#[test]
fn each_fault_of_the_arguments_has_its_case() {
    let args = get_barebones_args(PROJECT);
    let facts = sample_facts();
    let cases = [
        (DirectoryFacts { rootdir_is_dir: false, rootdir_is_file: true, ..facts }, ArgumentError::RootIsFile),
        (DirectoryFacts { rootdir_is_dir: false, ..facts }, ArgumentError::RootNotDirectory),
        (DirectoryFacts { mapsdir_is_dir: false, ..facts }, ArgumentError::NoMapsDirectory),
        (DirectoryFacts { map_is_file: false, ..facts }, ArgumentError::NoMapFile),
        (DirectoryFacts { ges_file_is_file: false, ..facts }, ArgumentError::NotAnInstallation),
    ];
    for (facts, fault) in cases {
        assert_eq!(check_arguments(&args, &facts), Err(fault));
    }
    let mut unnamed = get_barebones_args(PROJECT);
    unnamed.rootdir = String::from("/");
    assert_eq!(check_arguments(&unnamed, &facts), Err(ArgumentError::RootHasNoName));
    unnamed.rootdir = String::from("release/..");
    assert_eq!(check_arguments(&unnamed, &facts), Err(ArgumentError::RootHasNoName));
    unnamed.rootdir = String::from("C:\\release\\gesource\\");
    assert_eq!(check_arguments(&unnamed, &facts), Ok(Vec::new()));
    unnamed.rootdir = String::from("C:\\release\\GESource");
    assert_eq!(check_arguments(&unnamed, &facts), Err(ArgumentError::RootNotNamedGesource));

    let mut fullcheck = get_barebones_args(PROJECT);
    fullcheck.fullcheck = true;
    assert_eq!(
        check_arguments(&fullcheck, &DirectoryFacts { gesdir_is_dir: false, gesdir_is_file: true, ..facts }),
        Err(ArgumentError::GesdirIsFile)
    );
    assert_eq!(
        check_arguments(&fullcheck, &DirectoryFacts { gesdir_is_dir: false, ..facts }),
        Err(ArgumentError::GesdirNotDirectory)
    );
    assert_eq!(
        ArgumentError::RootNotNamedGesource.message(),
        "Root directory must end in \"gesource\"!"
    );
}

#[test]
fn warnings_come_in_their_order() {
    let facts = sample_facts();
    let mut args = get_barebones_args(PROJECT);
    assert_eq!(check_arguments(&args, &facts), Ok(Vec::new()));
    assert_eq!(
        check_arguments(
            &args,
            &DirectoryFacts { musicdir_is_dir: false, gesdir_is_dir: false, gesdir_is_file: true, ..facts }
        ),
        Ok(vec![
            ArgumentWarning::NoMusicDirectory,
            ArgumentWarning::GesdirIsFile,
            ArgumentWarning::LimitedFeatures
        ])
    );
    assert_eq!(
        check_arguments(&args, &DirectoryFacts { gesdir_is_dir: false, ..facts }),
        Ok(vec![ArgumentWarning::GesdirNotDirectory, ArgumentWarning::LimitedFeatures])
    );
    args.minplayers = 17;
    args.resintensity = 9;
    assert_eq!(
        check_arguments(&args, &facts),
        Ok(vec![ArgumentWarning::MinAboveMax, ArgumentWarning::ResIntensityTooHigh])
    );
    args.maxplayers = 32;
    args.resintensity = 0;
    assert_eq!(
        check_arguments(&args, &facts),
        Ok(vec![ArgumentWarning::PlayerRangeImpossible, ArgumentWarning::ResIntensityTooLow])
    );
    args.minplayers = -5;
    args.maxplayers = -1;
    args.resintensity = 8;
    assert_eq!(check_arguments(&args, &facts), Ok(vec![ArgumentWarning::PlayerRangeImpossible]));
    args = get_barebones_args(PROJECT);
    args.fullcheck = true;
    args.compress = true;
    assert_eq!(
        check_arguments(&args, &DirectoryFacts { musicdir_is_dir: false, ..facts }),
        Ok(vec![ArgumentWarning::CompressIgnored])
    );
    assert!(ArgumentWarning::CompressIgnored.message().contains("fullcheck"));
}

fn nothing_given() -> GivenArguments {
    GivenArguments {
        rootdir: None,
        gesdir: None,
        weight: None,
        minplayers: None,
        maxplayers: None,
        resintensity: None,
        teamthresh: None,
        fullcheck: false,
        compress: false,
        recompress: false,
        verbose: false,
        noexitprompt: false,
    }
}

fn fields(args: &Arguments) -> (i32, i32, i32, i32, i32) {
    (args.baseweight, args.minplayers, args.maxplayers, args.resintensity, args.teamthresh)
}

#[test]
fn arguments_have_their_defaults() {
    let (args, set_aside) = parse_arguments(&nothing_given(), "here", "C:\\install");
    assert_eq!(args.rootdir, "here");
    assert_eq!(args.gesdir, "C:\\install");
    assert_eq!(fields(&args), (500, 0, 16, 7, 12));
    assert!(!args.compress && !args.recompress && !args.verbose && !args.fullcheck && !args.noexitprompt);
    assert!(set_aside.is_empty());
    assert_eq!(Setting::BaseWeight.default_value(), 500);
    assert_eq!(Setting::TeamThreshold.name(), "teamthresh");
}

#[test]
fn arguments_take_what_is_given() {
    let mut given = nothing_given();
    given.rootdir = Some(String::from("release/gesource"));
    given.gesdir = Some(String::from("install/gesource"));
    given.weight = Some(String::from("700"));
    given.minplayers = Some(String::from("-2"));
    given.maxplayers = Some(String::from("+8"));
    given.resintensity = Some(String::from("ten"));
    given.teamthresh = Some(String::from("99999999999"));
    given.recompress = true;
    given.verbose = true;
    given.noexitprompt = true;
    let (args, set_aside) = parse_arguments(&given, "here", "C:\\install");
    assert_eq!(args.rootdir, "release/gesource");
    assert_eq!(args.gesdir, "install/gesource");
    assert_eq!(fields(&args), (700, -2, 8, 7, 12));
    assert!(args.compress && args.recompress && args.verbose && args.noexitprompt && !args.fullcheck);
    assert_eq!(set_aside, vec![Setting::ResIntensity, Setting::TeamThreshold]);

    given.fullcheck = true;
    given.recompress = false;
    given.compress = true;
    given.weight = Some(String::new());
    let (args, set_aside) = parse_arguments(&given, "here", "C:\\install");
    assert_eq!(args.rootdir, "install/gesource");
    assert!(args.compress && !args.recompress && args.fullcheck);
    assert_eq!(args.baseweight, 500);
    assert_eq!(set_aside, vec![Setting::BaseWeight, Setting::ResIntensity, Setting::TeamThreshold]);

    given.gesdir = None;
    let (args, _) = parse_arguments(&given, "here", "C:\\install");
    assert_eq!(args.rootdir, "C:\\install");
    assert_eq!(args.gesdir, "C:\\install");
}

#[test]
fn failures_add_up_to_the_exit_code() {
    assert_eq!(INVALID_ARGUMENTS, 1);
    assert_eq!(exit_code(false, false, false), 0);
    assert_eq!(exit_code(true, false, false), 2);
    assert_eq!(exit_code(false, true, false), 4);
    assert_eq!(exit_code(false, false, true), 8);
    assert_eq!(exit_code(true, true, false), 6);
    assert_eq!(exit_code(true, false, true), 10);
    assert_eq!(exit_code(false, true, true), 12);
    assert_eq!(exit_code(true, true, true), 14);
}
