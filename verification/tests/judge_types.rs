use fastoj::bridge::{native_shell_parts, ShellCommandError};
use fastoj::command::{default_keymap, Command, InputEvent, KeyCode, KeyModifiers};
use fastoj::completer::{fuzzy_sort, CaseInputCompleter};
use fastoj::genconf::{ConfigRoot, PartialEvaluatorConfig, PartialLanguageProfile};
use fastoj::ojreader::{EvaluatorConfig, TestInfo};
use fastoj::cases::{change_extension, flatten_limit_info, resolve_yaml_path, LimitInfo, ReaderError};
use fastoj::measure;
use fastoj::runnercfg::{self, ArgFileLang, FileType};
use fastoj::textutil::{center_text, with_ellipsis, with_yaml, PrettyNumber};
use fastoj::verdict::{JudgeStatus, JudgeVerdict, Limitation, SummaryInfo};

#[test]
fn severity_orders_statuses() {
    let re = JudgeStatus::RE(String::from("boom"));
    let tle = JudgeStatus::Tle(2500);
    let mle = JudgeStatus::Mle(4096);
    assert_eq!(re.severity(), 4);
    assert_eq!(tle.severity(), 2);
    assert_eq!(mle.severity(), 1);
    assert_eq!(JudgeStatus::AC.severity(), 0);
    assert!(re.is_severe_than(&tle));
    assert!(JudgeStatus::Tle(3000).is_severe_than(&JudgeStatus::Tle(2500)));
    assert!(!JudgeStatus::Tle(2500).is_severe_than(&JudgeStatus::Tle(2500)));
    assert!(JudgeStatus::Mle(8192).is_severe_than(&mle));
    assert!(!JudgeStatus::AC.is_severe_than(&mle));
}

#[test]
fn verdict_starts_failed_and_updates() {
    let mut v = JudgeVerdict::new(String::from("1 2"));
    assert!(!v.is_accept());
    v.status(JudgeStatus::AC);
    v.duration(Some(12));
    v.memory(Some(640));
    assert!(v.is_accept());

    let mut summary = SummaryInfo::default();
    summary.update(v);
    let wa = {
        let mut w = JudgeVerdict::new(String::from("3 4"));
        w.status(JudgeStatus::WA(fastoj::verdict::StyledDiff {
            output: String::from("7"),
            answer: String::from("8"),
        }));
        w.duration(Some(8));
        w
    };
    summary.update(wa);
    assert_eq!(summary.current_rounds, 2);
    assert_eq!(summary.success_rounds, 1);
    assert_eq!(summary.total_time, 20);
    assert_eq!(summary.total_memory, 640);
    assert_eq!(summary.score(), 50);
}

#[test]
fn runner_summary_tracks_worst_status() {
    let mut summary = measure::SummaryInfo::default();
    let mut v1 = measure::JudgeVerdict::new(String::from("in"), String::from("out"));
    v1.status(measure::JudgeStatus::MLE(100));
    summary.update(v1);
    let mut v2 = measure::JudgeVerdict::new(String::from("in"), String::from("out"));
    v2.status(measure::JudgeStatus::TLE(999));
    summary.update(v2);
    assert!(matches!(summary.worse_status, measure::JudgeStatus::TLE(999)));
    assert_eq!(summary.score(), 0);
}

#[test]
fn default_limits_are_a_gibibyte_and_two_seconds() {
    let limit = Limitation::default();
    assert_eq!(limit.max_memory, Some(1024 * 1024));
    assert_eq!(limit.max_time, Some(2000));
    let mut l2 = Limitation::default();
    l2.max_memory(None).max_time(Some(500));
    assert_eq!(l2.max_memory, None);
    assert_eq!(l2.max_time, Some(500));
}

#[test]
fn status_labels() {
    assert_eq!(JudgeStatus::AC.to_str_short(), "答案正確 AC");
    assert_eq!(
        JudgeStatus::RE(String::from("x")).to_str_short(),
        "運行時錯誤 RE"
    );
    assert_eq!(measure::JudgeStatus::MLE(1).to_str_short(), "記憶體超限 MLE");
}

#[test]
fn yaml_path_resolution() {
    let ok = resolve_yaml_path("a.yml".into(), "a.yaml".into(), true, false);
    assert_eq!(ok.unwrap(), "a.yml");
    let ok2 = resolve_yaml_path("a.yml".into(), "a.yaml".into(), false, true);
    assert_eq!(ok2.unwrap(), "a.yaml");
    assert!(matches!(
        resolve_yaml_path("a.yml".into(), "a.yaml".into(), true, true),
        Err(ReaderError::FileNotFound(_))
    ));
    assert!(matches!(
        resolve_yaml_path("a.yml".into(), "a.yaml".into(), false, false),
        Err(ReaderError::NoConfigFile(p)) if p == "a.yaml"
    ));
}

#[test]
fn extension_changes() {
    assert_eq!(
        change_extension(&String::from("dir/test.cpp"), &String::from("yaml")),
        "dir/test.yaml"
    );
    assert_eq!(
        change_extension(&String::from("dir/test.cpp"), &String::from("")),
        "dir/test"
    );
    assert_eq!(
        change_extension(&String::from("dir.d/plain"), &String::from("yml")),
        "dir.d/plain.yml"
    );
    assert_eq!(
        change_extension(&String::from(".hidden"), &String::from("txt")),
        ".hidden.txt"
    );
    // paths without a final file name are left alone
    assert_eq!(change_extension(&String::from("dir/"), &String::from("yml")), "dir/");
    assert_eq!(change_extension(&String::from("/"), &String::from("yml")), "/");
    assert_eq!(change_extension(&String::from(""), &String::from("yml")), "");
    assert_eq!(change_extension(&String::from(".."), &String::from("yml")), "..");
    assert_eq!(change_extension(&String::from("a/.."), &String::from("yml")), "a/..");
}

#[test]
fn file_types_from_extension() {
    assert_eq!(ArgFileLang::Cpp.to_file_type(), FileType::Cpp);
    let e = String::from("py");
    assert_eq!(runnercfg::file_type_of_extension(Some(&e)), FileType::Python);
    let odd = String::from("lisp");
    assert!(matches!(
        runnercfg::file_type_of_extension(Some(&odd)),
        FileType::Unknown(u) if u == "lisp"
    ));
}

#[test]
fn resolve_args_merges_limits() {
    let args = runnercfg::Args {
        file: String::from("x.c"),
        config: None,
        lang: None,
        no_judge: false,
        time: Some(750),
        memory: None,
        verbose: false,
    };
    let config = runnercfg::Config {
        cases: vec![],
        limit: Some(LimitInfo {
            memory: Some(2048),
            time: Some(1000),
        }),
    };
    let ext = String::from("c");
    let info = runnercfg::resolve_args(args, true, Some(&ext), Some(config)).unwrap();
    assert_eq!(info.max_time, Some(750));
    assert_eq!(info.max_memory, Some(2048));
    assert!(info.do_judge);
    assert_eq!(info.file_type, FileType::C);
}

#[test]
fn resolve_args_missing_file() {
    let args = runnercfg::Args {
        file: String::from("gone.c"),
        config: None,
        lang: None,
        no_judge: true,
        time: None,
        memory: None,
        verbose: false,
    };
    assert!(matches!(
        runnercfg::resolve_args(args, false, None, None),
        Err(ReaderError::FileNotFound(f)) if f == "gone.c"
    ));
}

#[test]
fn limit_flattening() {
    let l = flatten_limit_info(None);
    assert_eq!(l.memory, None);
    assert_eq!(l.time, None);
}

#[test]
fn text_helpers() {
    assert_eq!(center_text("Test 1", 12, "_"), "___ Test 1 ___");
    assert_eq!(center_text("a long label", 4, "_"), "a long label");
    assert_eq!(with_ellipsis("abcdef", 4), "abcd...");
    assert_eq!(with_ellipsis("abc", 4), "abc");
    assert_eq!(with_yaml("cases"), "cases.yaml");
    assert_eq!(with_yaml("cases.yml"), "cases.yml");
    assert_eq!(with_yaml("  "), "");
}

#[test]
fn numbers_group_in_thousands() {
    assert_eq!(1234567usize.prettify(), "1,234,567");
    assert_eq!(512usize.prettify(), "512");
    assert_eq!(1000u64.prettify(), "1,000");
    assert_eq!(0usize.prettify(), "0");
}

#[test]
fn keymap_lookup_and_defaults() {
    let mut m = default_keymap();
    let esc = InputEvent { code: KeyCode::Esc, modifiers: KeyModifiers::none() };
    assert_eq!(m.get(esc), Some(Command::Exit));
    // a later binding overrides the default
    m.insert(esc, Command::CursorHome);
    assert_eq!(m.get(esc), Some(Command::CursorHome));
    let unbound = InputEvent { code: KeyCode::F(9), modifiers: KeyModifiers::none() };
    assert_eq!(m.get(unbound), None);
}

#[test]
fn generator_config_merges_languages() {
    let root = ConfigRoot {
        evaluator: PartialEvaluatorConfig {
            languages: vec![
                PartialLanguageProfile { extension: "c".into() },
                PartialLanguageProfile { extension: "py".into() },
            ],
        },
        generator: None,
    };
    let config = root.into_config();
    assert_eq!(config.supported_code_types, vec!["c", "py"]);
    assert!(config.editor.is_none());
}

#[test]
fn judge_args_take_configured_warmup() {
    let mut info = TestInfo {
        file: "a.c".into(),
        file_type: "c".into(),
        cases: vec![],
        max_memory: None,
        max_time: None,
        do_judge: true,
        warmup_times: None,
    };
    let config = EvaluatorConfig { languages: vec![], warmup: Some(3) };
    info.with_config(&config);
    assert_eq!(info.warmup_times, Some(3));
    info.with_config(&EvaluatorConfig { languages: vec![], warmup: Some(9) });
    assert_eq!(info.warmup_times, Some(3));
}

#[test]
fn fuzzy_sort_orders_matches() {
    let paths = vec![
        String::from("alpha.yaml"),
        String::from("beta.yaml"),
        String::from("albatross.yaml"),
    ];
    let ranked = fuzzy_sort("al", &paths);
    // "al" is a subsequence of all three, but scores best at a word start
    assert_eq!(ranked.len(), 3);
    assert!(ranked[0].1 >= ranked[1].1 && ranked[1].1 >= ranked[2].1);
    assert!(ranked[0].0.starts_with("al"));
    assert_eq!(fuzzy_sort("zzz", &paths).len(), 0);
}

#[test]
fn case_input_completer_suggests_editor() {
    let c = CaseInputCompleter;
    assert_eq!(c.get_suggestions("", "open the editor"), vec!["open the editor"]);
    assert_eq!(c.get_suggestions("1 2 3", "open the editor"), Vec::<String>::new());
}

#[test]
fn shell_splitting() {
    let parts = native_shell_parts("gcc -O2 \"my file.c\"").unwrap();
    assert_eq!(parts, vec!["gcc", "-O2", "my file.c"]);
    assert_eq!(native_shell_parts(""), Err(ShellCommandError::Empty));
    assert_eq!(
        native_shell_parts("unterminated \" quote"),
        Err(ShellCommandError::Unparsable)
    );
}

#[test]
fn wrapped_rows_count_wide_characters() {
    // three ideographs at two columns each in four columns: two rows
    let line: Vec<char> = "好好好".chars().collect();
    assert_eq!(fastoj::width::wrapped_row_count(&line, 4), 2);
    // width zero means unbounded: a single row
    assert_eq!(fastoj::width::wrapped_row_count(&line, 0), 1);
    let empty: Vec<char> = Vec::new();
    assert_eq!(fastoj::width::wrapped_row_count(&empty, 10), 1);
}
