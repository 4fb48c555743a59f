use ges_mapreleaser::argument_handler::Arguments;
use ges_mapreleaser::error::{FailureKind, FullcheckError, ScriptError};
use ges_mapreleaser::map_script_builder::{
    check_line_value_validity, check_map_script_file, create_map_script_file,
    create_or_verify_map_script_file, fullcheck_map_script_files,
};
use ges_mapreleaser::shared::{get_barebones_args, Outcome, ScriptFile};

fn arguments() -> Arguments {
    get_barebones_args("project")
}

const COMPLETE: &str = "// A complete script\r\n\
BaseWeight\t700\r\n\
MaxPlayers\t16\r\n\
MinPlayers\t0\r\n\
ResIntensity\t7\r\n\
TeamThreshold\t12\r\n\
\r\n\
WeaponsetWeights\r\n\
{\r\n\
\tslappers\t\t0\r\n\
}\r\n\
GamemodeWeights\r\n\
{\r\n\
\tYOLT\t\t0\r\n\
\tLTK\t\t100\r\n\
}\r\n\
TeamGamemodeWeights\r\n\
{\r\n\
\tCaptureTheFlag\t\t0\r\n\
}\r\n";

fn valid_scripts() -> Vec<String> {
    vec![
        String::from(COMPLETE),
        COMPLETE.replace("\r\n", "\n"),
        COMPLETE.replace("BaseWeight\t700", "BaseWeight   -700"),
        COMPLETE.replace("MaxPlayers\t16", "  MaxPlayers +16 trailing words"),
        COMPLETE.replace("\tslappers\t\t0\r\n}", "\tslappers\t\t0 }"),
        COMPLETE.replace("MinPlayers\t0", "MinPlayers\t0\r\nUnknownTerm whatever"),
        COMPLETE.replace("{\r\n\tslappers", "  {  \r\n// a comment\r\n\tslappers"),
        COMPLETE.replace("\tslappers\t\t0\r\n}", "\tslappers\t\t0\r\n }"),
        COMPLETE.replace("\tslappers\t\t0\r\n}", "\tslappers\t\t0\r\n\t\t}\t"),
        COMPLETE.replace("\tslappers\t\t0\r\n}", "\tslappers\t\t0}"),
        COMPLETE.replace("\tslappers\t\t0\r\n}", "} slappers 0"),
        COMPLETE.replace("{\r\n\tslappers\t\t0\r\n}", "{ slappers 0 }"),
        COMPLETE.replace("{\r\n\tslappers\t\t0\r\n}", "{ }"),
        COMPLETE.replace("BaseWeight\t700", "BaseWeight \"700\""),
        COMPLETE.replace("BaseWeight\t700", "\"BaseWeight\"\"700\""),
        COMPLETE.replace("\tYOLT\t\t0", "\t\"You Only Live Twice\"\t\"0\""),
        COMPLETE.replace("WeaponsetWeights\r\n{", "WeaponsetWeights {"),
        COMPLETE.replace("ResIntensity\t7", "ResIntensity\t007\r\nResIntensity\tnot looked at"),
        format!("{}\r\nWeaponsetWeights\r\n{{\r\nthis section was read already\r\n", COMPLETE),
    ]
}

fn invalid_scripts() -> Vec<String> {
    vec![
        String::new(),
        COMPLETE.replace("BaseWeight\t700\r\n", ""),
        COMPLETE.replace("BaseWeight\t700", "BaseWeight"),
        COMPLETE.replace("BaseWeight\t700", "BaseWeight\tseven"),
        COMPLETE.replace("BaseWeight\t700", "BaseWeight\t7.5"),
        COMPLETE.replace("BaseWeight\t700", "BaseWeight\t2147483648"),
        COMPLETE.replace("BaseWeight\t700", "//BaseWeight\t700"),
        COMPLETE.replace("\tYOLT\t\t0\r\n", "\tYOLT\t\t0\r\n\r\n"),
        COMPLETE.replace("\tYOLT\t\t0\r\n", "\tYOLT\r\n"),
        COMPLETE.replace("\tYOLT\t\t0\r\n", "\tYOLT\t\tzero\r\n"),
        COMPLETE.replace("\tYOLT\t\t0\r\n", "\tYOLT }\r\n"),
        COMPLETE.replace("\tYOLT\t\t0\r\n", "\tYOLT \"0\r\n"),
        COMPLETE.replace("\tYOLT\t\t0\r\n", "\t\"YO{LT\" 0\r\n"),
        COMPLETE.replace("{\r\n\tslappers", "{ anything here\r\n\tslappers"),
        COMPLETE.replace("BaseWeight\t700", "BaseWeight \"7 00\""),
        format!("{}\"\r\n", COMPLETE),
        COMPLETE.replace("\tCaptureTheFlag\t\t0\r\n}\r\n", "\tCaptureTheFlag\t\t0\r\n"),
        COMPLETE.replace("GamemodeWeights\r\n{\r\n\tYOLT\t\t0\r\n\tLTK\t\t100\r\n}\r\nTeam", "Team"),
    ]
}

#[test]
fn test_valid_map_scripts() {
    for script in valid_scripts() {
        let checked = check_map_script_file(&script);
        assert!(
            checked.is_ok(),
            "Map Script {:?} was detected as invalid when it should be valid!  Error was {:?}",
            script,
            checked
        );
    }
}

#[test]
fn test_invalid_map_scripts() {
    for script in invalid_scripts() {
        assert!(
            check_map_script_file(&script).is_err(),
            "Map Script {:?} was detected as valid when it should be invalid!",
            script
        );
    }
}

#[test]
fn created_map_script_is_written_as_expected() {
    let text = create_map_script_file(&arguments());
    let expected = "// Map Script File Generated by GE:S Map Release Assistant for 5.0 - Report Any Issues to Entropy-Soldier\r\n\
\r\n\
// The game will try not to pick this map when the playercount is outside the range specified here.\r\n\
// The BaseWeight of the map controls how likely the map is to be chosen in random selection.\r\n\
// The map will not be chosen if the server playercount is below MinPlayers or above MaxPlayers\r\n\
// The baseweight scales with how far the playercount is from the average of MinPlayers and MaxPlayers.\r\n\
// because of this, maps with large ranges are not very likely to be picked at the edges of them.\r\n\
// ResIntensity is a measure of how much data in unique assets a map has.\r\n\
// It will avoid switching between maps with a combined intensity score of 10 or greater to avoid client crashes.\r\n\
\r\n\
BaseWeight\t700\r\n\
MaxPlayers\t16\r\n\
MinPlayers\t0\r\n\
ResIntensity\t7\r\n\
TeamThreshold\t12\r\n\
\r\n\
// Overrides the default weaponset weights if any sets are specified here.  Can be used as a blacklist.\r\n\
// Will only override weaponsets that are already in rotation, to prevent overriding gamemode specific lists.\r\n\
WeaponsetWeights\r\n\
{\r\n\
\tslappers\t\t0\r\n\
}\r\n\
\r\n\
// Weights for each gamemode if the map is switched to below the team threshold.\r\n\
// Overrides whatever weight is specified in default.txt, if there is one.\r\n\
// If a gamemode is not listed here or in default.txt it won't be used.\r\n\
GamemodeWeights\r\n\
{\r\n\
\tYOLT\t\t0\r\n\
}\r\n\
\r\n\
// Gamemode weights used when the map is switched to while playercount is above the team threshold.\r\n\
TeamGamemodeWeights\r\n\
{\r\n\
\tCaptureTheFlag\t\t0\r\n\
}\r\n\
\r\n";
    assert_eq!(text, expected);
}

#[test]
fn created_map_script_is_valid_for_any_numbers() {
    let numbers = [0, 1, -1, 9, 10, 99, 100, 700, 12345, i32::MAX, i32::MIN, -2147483647];
    for (i, number) in numbers.iter().enumerate() {
        let mut args = arguments();
        args.baseweight = *number;
        args.maxplayers = numbers[(i + 1) % numbers.len()];
        args.minplayers = numbers[(i + 2) % numbers.len()];
        args.resintensity = numbers[(i + 3) % numbers.len()];
        args.teamthresh = numbers[(i + 4) % numbers.len()];
        let text = create_map_script_file(&args);
        assert!(text.contains(&format!("BaseWeight\t{}\r\n", number)));
        assert!(text.contains(&format!("TeamThreshold\t{}\r\n", args.teamthresh)));
        assert!(check_map_script_file(&text).is_ok());
    }
}

#[test]
fn validating_twice_gives_the_same_answer() {
    for script in valid_scripts() {
        assert!(check_map_script_file(&script).is_ok());
        assert!(check_map_script_file(&script).is_ok());
    }
    for script in invalid_scripts() {
        let first = check_map_script_file(&script).unwrap_err().message();
        let second = check_map_script_file(&script).unwrap_err().message();
        assert_eq!(first, second);
    }
}

#[test]
fn missing_terms_are_all_named() {
    let script = COMPLETE
        .replace("TeamThreshold\t12\r\n", "")
        .replace("GamemodeWeights\r\n{\r\n\tYOLT\t\t0\r\n\tLTK\t\t100\r\n}\r\nTeam", "Team");
    match check_map_script_file(&script) {
        Err(error) => {
            let message = error.message();
            assert!(message.contains("TeamThreshold"));
            assert!(message.contains("GamemodeWeights"));
            assert_eq!(error.kind(), FailureKind::MissingField);
            match error {
                ScriptError::AbsentTerms { value_terms, bracket_terms } => {
                    assert_eq!(value_terms, vec![String::from("TeamThreshold")]);
                    assert_eq!(bracket_terms, vec![String::from("GamemodeWeights")]);
                }
                other => panic!("wrong fault: {:?}", other),
            }
        }
        Ok(()) => panic!("the script should be rejected"),
    }
}

#[test]
fn empty_script_lacks_every_term_in_order() {
    match check_map_script_file("") {
        Err(ScriptError::AbsentTerms { value_terms, bracket_terms }) => {
            assert_eq!(
                value_terms,
                vec!["BaseWeight", "MaxPlayers", "MinPlayers", "ResIntensity", "TeamThreshold"]
            );
            assert_eq!(
                bracket_terms,
                vec!["WeaponsetWeights", "GamemodeWeights", "TeamGamemodeWeights"]
            );
        }
        other => panic!("wrong result: {:?}", other),
    }
    let message = check_map_script_file("").unwrap_err().message();
    assert_eq!(
        message,
        "[Map Script Validate Error] Absent value terms: BaseWeight MaxPlayers MinPlayers ResIntensity TeamThreshold Absent bracket terms: WeaponsetWeights GamemodeWeights TeamGamemodeWeights "
    );
}

#[test]
fn map_script_faults_name_what_is_wrong() {
    match check_map_script_file(&COMPLETE.replace("MaxPlayers\t16", "MaxPlayers")) {
        Err(ScriptError::MissingValue { parameter }) => assert_eq!(parameter, "MaxPlayers"),
        other => panic!("wrong result: {:?}", other),
    }
    match check_map_script_file(&COMPLETE.replace("\tLTK\t\t100", "\tLTK\t\tmany")) {
        Err(error) => {
            assert_eq!(
                error.message(),
                "[Map Script Validate Error] Parameter for LTK not a valid whole number value!"
            );
            assert_eq!(error.kind(), FailureKind::Format);
        }
        other => panic!("wrong result: {:?}", other),
    }
    match check_map_script_file(&COMPLETE.replace("\tLTK\t\t100\r\n", "   \r\n")) {
        Err(ScriptError::BlankLine { section }) => assert_eq!(section, "GamemodeWeights"),
        other => panic!("wrong result: {:?}", other),
    }
    match check_map_script_file("WeaponsetWeights\n{\nslappers 0\n") {
        Err(ScriptError::UnfinishedSection { section }) => assert_eq!(section, "WeaponsetWeights"),
        other => panic!("wrong result: {:?}", other),
    }
}

#[test]
fn closing_brace_ends_the_section_wherever_it_stands() {
    let script = "BaseWeight 500\r\nMaxPlayers 16\r\nMinPlayers 0\r\nResIntensity 7\r\nTeamThreshold 12\r\n\
WeaponsetWeights\r\n{\r\nslappers 0\r\n }\r\nGamemodeWeights\r\n{\r\nYOLT 0\r\n}\r\n\
TeamGamemodeWeights\r\n{\r\nCaptureTheFlag 0\r\n}\r\n";
    assert!(check_map_script_file(script).is_ok());
    assert!(check_map_script_file(&script.replace("slappers 0\r\n }", "slappers 0 }")).is_ok());
    assert!(check_map_script_file(&script.replace("slappers 0\r\n }", "slappers 0}")).is_ok());
    assert!(check_map_script_file(&script.replace("{\r\nslappers", "\t{\r\nslappers")).is_ok());
    match check_map_script_file(&script.replace("slappers 0\r\n }", "slappers }")) {
        Err(ScriptError::MissingValue { parameter }) => assert_eq!(parameter, "slappers"),
        other => panic!("wrong result: {:?}", other),
    }
    match check_map_script_file(&script.replace("YOLT 0\r\n}", "YOLT 0")) {
        Err(ScriptError::MissingValue { parameter }) => assert_eq!(parameter, "TeamGamemodeWeights"),
        other => panic!("wrong result: {:?}", other),
    }
}

#[test]
fn quotation_marks_are_no_part_of_a_word() {
    assert!(check_line_value_validity("BaseWeight", Some("500")).is_ok());
    assert!(check_map_script_file(&COMPLETE.replace("BaseWeight\t700", "BaseWeight \"500\"")).is_ok());
    match check_map_script_file(&COMPLETE.replace("BaseWeight\t700", "BaseWeight \"500")) {
        Err(error) => {
            assert_eq!(error.kind(), FailureKind::Format);
            assert_eq!(
                error.message(),
                "[Map Script Validate Error] Quotation mark without a partner on the line: BaseWeight \"500\r"
            );
            assert!(matches!(error, ScriptError::BrokenQuote { .. }));
        }
        Ok(()) => panic!("the script should be rejected"),
    }
    match check_map_script_file(&COMPLETE.replace("BaseWeight\t700", "BaseWeight \"\"")) {
        Err(ScriptError::InvalidValue { parameter }) => assert_eq!(parameter, "BaseWeight"),
        other => panic!("wrong result: {:?}", other),
    }
}

#[test]
fn line_values_must_be_whole_numbers() {
    for good in ["0", "7", "-7", "+7", "007", "2147483647", "-2147483648", "-0"] {
        assert!(check_line_value_validity("BaseWeight", Some(good)).is_ok(), "{}", good);
        assert!(good.parse::<i32>().is_ok());
    }
    for bad in ["", "+", "-", "7.0", "7a", "a7", " 7", "7 ", "2147483648", "-2147483649", "1_000", "++1", "٣"] {
        match check_line_value_validity("BaseWeight", Some(bad)) {
            Err(ScriptError::InvalidValue { parameter }) => assert_eq!(parameter, "BaseWeight"),
            other => panic!("wrong result for {:?}: {:?}", bad, other),
        }
        assert!(bad.parse::<i32>().is_err());
    }
    match check_line_value_validity("MinPlayers", None) {
        Err(error) => assert_eq!(
            error.message(),
            "[Map Script Validate Error] Expected value for parameter MinPlayers"
        ),
        Ok(()) => panic!("a value is expected"),
    }
}

#[test]
fn map_script_is_written_or_checked() {
    let args = arguments();
    match create_or_verify_map_script_file(&args, None) {
        Ok(Outcome::Created { contents }) => assert_eq!(contents, create_map_script_file(&args)),
        other => panic!("wrong result: {:?}", other),
    }
    assert!(matches!(
        create_or_verify_map_script_file(&args, Some(COMPLETE)),
        Ok(Outcome::Verified)
    ));
    assert!(matches!(
        create_or_verify_map_script_file(&args, Some("BaseWeight")),
        Err(ScriptError::MissingValue { .. })
    ));
}

#[test]
fn map_scripts_of_an_installation_are_swept() {
    let files = vec![
        ScriptFile { path: String::from("scripts/maps/one.txt"), contents: String::from(COMPLETE) },
        ScriptFile { path: String::from("scripts/maps/notes.md"), contents: String::from("no script") },
        ScriptFile { path: String::from("scripts/maps/TWO.TXT"), contents: String::from(COMPLETE) },
    ];
    assert!(matches!(fullcheck_map_script_files(true, &files), Ok(2)));
    assert!(matches!(
        fullcheck_map_script_files(false, &files),
        Err(FullcheckError::MissingDirectory)
    ));
    let mut broken = files;
    broken.push(ScriptFile {
        path: String::from("scripts/maps/three.txt"),
        contents: String::from("BaseWeight heavy"),
    });
    broken.push(ScriptFile { path: String::from("scripts/maps/four.txt"), contents: String::new() });
    match fullcheck_map_script_files(true, &broken) {
        Err(error) => {
            assert_eq!(
                error.message(),
                "While processing scripts/maps/three.txt the following error was encountered:\n[Map Script Validate Error] Parameter for BaseWeight not a valid whole number value!"
            );
            match error {
                FullcheckError::File { path, error } => {
                    assert_eq!(path, "scripts/maps/three.txt");
                    assert!(matches!(error, ScriptError::InvalidValue { .. }));
                }
                other => panic!("wrong failure: {:?}", other),
            }
        }
        Ok(count) => panic!("the sweep should fail, not count {}", count),
    }
}
