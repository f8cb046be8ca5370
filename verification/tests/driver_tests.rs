use menu_driver::data::{Data, Info, data_from_json5};
use menu_driver::driver::{edit_stacks, exec_command, parse_var, preamble, process_output,
    restore_data, restore_info, script_call, seed_stacks, Outcome, OutputError, SeedError};
use menu_driver::value::VecString;

fn lines(texts: &[&str]) -> Vec<String> {
    texts.iter().map(|s| s.to_string()).collect()
}

fn info_from(text: &str) -> Info {
    restore_info(&Some(text.to_string()), &Data::default()).unwrap()
}

const NO_OP_INFO: &str =
    "{\"push_call\":[],\"push\":[],\"pop_call\":0,\"pop\":0,\"exec\":[],\"fork\":false,\"menu\":null}";

#[test]
fn parse_var_reads_plain_and_bracketed_values() {
    assert_eq!(parse_var("/r.sh").unwrap(), vec!["/r.sh".to_string()]);
    assert_eq!(
        parse_var(" [\"a\", \"b\"] ").unwrap(),
        vec!["a".to_string(), "b".to_string()]
    );
    // a bracketed value must be an array of strings
    assert!(parse_var("[1]").is_none());
    assert!(parse_var("[oops]").is_none());
    // without the closing bracket the text stands for itself
    assert_eq!(parse_var("[oops").unwrap(), vec!["[oops".to_string()]);
}

#[test]
fn first_launch_builds_the_root_call() {
    // the preamble goes out before anything else on a first launch
    assert_eq!(preamble(), "\0delim\x1f\x0b\n");
    let mut data = restore_data(&None);
    let info = restore_info(&None, &data).unwrap();
    assert!(exec_command(&info, "").is_none());
    seed_stacks(&mut data, &Some("/r.sh".to_string()), &None).unwrap();
    assert!(edit_stacks(&mut data, &info, ""));
    assert_eq!(data.call_stack, vec!["/r.sh".to_string()]);
    assert!(data.stack.is_empty());
    let call = script_call(&data).unwrap();
    assert_eq!(call.argv0, "/r.sh");
    assert!(call.args.is_empty());
    assert_eq!(call.depth, "0");
    // the emitted data option decodes back to the state just built
    let result = process_output(&data, &info, &lines(&["{}", "\"a\"", "\"b\""])).unwrap();
    match result.outcome {
        Outcome::Emit(bytes) => {
            let data_part = bytes
                .split('\u{b}')
                .find(|seg| seg.starts_with("\0data\x1f"))
                .unwrap();
            let carried = data_from_json5(&data_part["\0data\x1f".len()..]).unwrap();
            assert!(carried.stack.is_empty());
            assert_eq!(carried.call_stack, vec!["/r.sh".to_string()]);
            assert!(carried.fallback.is_none());
        },
        Outcome::Again { .. } => panic!("two rows never autoselect"),
    }
}

#[test]
fn missing_initial_script_is_an_error() {
    let mut data = Data::default();
    assert_eq!(
        seed_stacks(&mut data, &None, &None),
        Err(SeedError::MissingInitialScript)
    );
    assert_eq!(
        seed_stacks(&mut data, &Some("[3]".to_string()), &None),
        Err(SeedError::BadInitialScript)
    );
    assert_eq!(
        seed_stacks(&mut data, &Some("/r.sh".to_string()), &Some("[3]".to_string())),
        Err(SeedError::BadInitialStack)
    );
    // a non-empty call stack needs no seeding at all
    data.call_stack = vec!["/r.sh".to_string()];
    assert_eq!(seed_stacks(&mut data, &None, &None), Ok(()));
}

#[test]
fn initial_stack_seeds_the_value_stack() {
    let mut data = Data::default();
    seed_stacks(
        &mut data,
        &Some("[\"/a.sh\",\"/b.sh\"]".to_string()),
        &Some("[\"x\",\"y\"]".to_string()),
    )
    .unwrap();
    assert_eq!(data.call_stack, vec!["/a.sh".to_string(), "/b.sh".to_string()]);
    assert_eq!(data.stack, vec!["x".to_string(), "y".to_string()]);
}

#[test]
fn pushing_a_submenu_extends_the_call_stack() {
    let mut data = Data::default();
    data.call_stack = vec!["/r.sh".to_string()];
    let info = info_from(&NO_OP_INFO.replace("\"push_call\":[]", "\"push_call\":\"/apps.sh\""));
    assert!(edit_stacks(&mut data, &info, "Apps"));
    assert_eq!(
        data.call_stack,
        vec!["/r.sh".to_string(), "/apps.sh".to_string()]
    );
    assert_eq!(script_call(&data).unwrap().argv0, "/apps.sh");
    assert_eq!(script_call(&data).unwrap().depth, "1");
}

#[test]
fn popping_returns_to_the_parent() {
    let mut data = Data::default();
    data.call_stack = vec!["/r.sh".to_string(), "/apps.sh".to_string()];
    let info = info_from(&NO_OP_INFO.replace("\"pop_call\":0", "\"pop_call\":1"));
    assert!(edit_stacks(&mut data, &info, "Back"));
    assert_eq!(data.call_stack, vec!["/r.sh".to_string()]);
    assert_eq!(script_call(&data).unwrap().argv0, "/r.sh");
}

#[test]
fn freeform_input_reaches_the_stack_through_the_fallback() {
    // the previous invocation stored the fallback; the host passes only
    // the typed text
    let mut data = Data::default();
    data.call_stack = vec!["/r.sh".to_string()];
    data.fallback = Some(Info {
        push_call: VecString::Single("/show.sh".to_string()),
        push: VecString::Multi(vec![VecString::UserInput]),
        pop_call: Some(0),
        pop: Some(0),
        exec_cmd: VecString::Multi(vec![]),
        fork: false,
        menu: None,
    });
    let info = restore_info(&None, &data).unwrap();
    assert!(edit_stacks(&mut data, &info, "Alice"));
    assert_eq!(data.stack, vec!["Alice".to_string()]);
    assert_eq!(
        data.call_stack,
        vec!["/r.sh".to_string(), "/show.sh".to_string()]
    );
    let call = script_call(&data).unwrap();
    assert_eq!(call.argv0, "/show.sh");
    assert_eq!(call.args, vec!["Alice".to_string()]);
}

#[test]
fn stack_arguments_are_passed_in_reverse() {
    let mut data = Data::default();
    data.stack = vec!["a".to_string(), "b".to_string(), "c".to_string()];
    data.call_stack = vec!["/r.sh".to_string()];
    let call = script_call(&data).unwrap();
    assert_eq!(
        call.args,
        vec!["c".to_string(), "b".to_string(), "a".to_string()]
    );
}

#[test]
fn popping_past_the_bottom_stops_silently() {
    let mut data = Data::default();
    data.stack = vec!["a".to_string()];
    data.call_stack = vec!["/r.sh".to_string()];
    let info = info_from(&NO_OP_INFO.replace("\"pop\":0", "\"pop\":2"));
    assert!(!edit_stacks(&mut data, &info, ""));
}

#[test]
fn stack_length_follows_the_edit_formula() {
    let mut data = Data::default();
    data.stack = vec!["a".to_string(), "b".to_string(), "c".to_string()];
    data.call_stack = vec!["/r.sh".to_string()];
    let text = NO_OP_INFO
        .replace("\"pop\":0", "\"pop\":2")
        .replace("\"push\":[]", "\"push\":[\"x\",\"y\"]");
    let info = info_from(&text);
    assert!(edit_stacks(&mut data, &info, ""));
    // three minus two popped plus two pushed
    assert_eq!(data.stack, vec!["a".to_string(), "x".to_string(), "y".to_string()]);
    // a null pop count clears before pushing
    let info2 = info_from(&NO_OP_INFO.replace("\"pop\":0", "\"pop\":null"));
    assert!(edit_stacks(&mut data, &info2, ""));
    assert!(data.stack.is_empty());
}

#[test]
fn empty_call_stack_after_edits_stops_silently() {
    let mut data = Data::default();
    data.call_stack = vec!["/r.sh".to_string()];
    let info = info_from(&NO_OP_INFO.replace("\"pop_call\":0", "\"pop_call\":1"));
    assert!(edit_stacks(&mut data, &info, ""));
    assert!(script_call(&data).is_none());
}

#[test]
fn exec_single_runs_one_shell_string() {
    let info = info_from(&NO_OP_INFO.replace("\"exec\":[]", "\"exec\":\"xdg-open http://x\""));
    assert_eq!(
        exec_command(&info, "").unwrap(),
        vec![
            "sh".to_string(),
            "-c".to_string(),
            "xdg-open http://x".to_string()
        ]
    );
    assert!(!info.fork);
}

#[test]
fn exec_multi_passes_positional_parameters() {
    let text = NO_OP_INFO.replace("\"exec\":[]", "\"exec\":[\"open\",null]");
    let info = info_from(&text);
    assert_eq!(
        exec_command(&info, "file.txt").unwrap(),
        vec![
            "sh".to_string(),
            "-c".to_string(),
            "\"$0\" \"$@\"".to_string(),
            "open".to_string(),
            "file.txt".to_string()
        ]
    );
}

#[test]
fn forked_exec_is_flagged_for_detaching() {
    let text = NO_OP_INFO
        .replace("\"exec\":[]", "\"exec\":\"xdg-open http://x\"")
        .replace("\"fork\":false", "\"fork\":true");
    let info = info_from(&text);
    assert!(info.fork);
    assert_eq!(
        exec_command(&info, "").unwrap(),
        vec![
            "sh".to_string(),
            "-c".to_string(),
            "xdg-open http://x".to_string()
        ]
    );
}

#[test]
fn autoselect_with_one_row_re_enters() {
    let data = Data {
        stack: vec![],
        call_stack: vec!["/search.sh".to_string()],
        fallback: None,
    };
    let info = Info::default();
    let result = process_output(
        &data,
        &info,
        &lines(&["{autoselect:true}", "{text:\"only\",jump:\"/final.sh\"}"]),
    )
    .unwrap();
    match result.outcome {
        Outcome::Again { data: d, info: i, input } => {
            assert_eq!(input, "only");
            assert_eq!(i.push_call.flatten(""), "/final.sh");
            assert_eq!(d.call_stack, vec!["/search.sh".to_string()]);
        },
        Outcome::Emit(_) => panic!("one row under autoselect must not emit"),
    }
}

#[test]
fn autoselect_needs_exactly_one_renderable_row() {
    let data = Data::default();
    let info = Info::default();
    // two renderable rows emit normally
    let r = process_output(&data, &info, &lines(&["{autoselect:true}", "\"a\"", "\"b\""])).unwrap();
    assert!(matches!(r.outcome, Outcome::Emit(_)));
    // an empty-text row does not count towards the one-row case
    let r2 = process_output(
        &data,
        &info,
        &lines(&["{autoselect:true}", "{text:\"\"}", "\"only\""]),
    )
    .unwrap();
    assert!(matches!(r2.outcome, Outcome::Again { .. }));
}

#[test]
fn rows_are_joined_by_the_delimiter() {
    let data = Data::default();
    let info = Info::default();
    let r = process_output(&data, &info, &lines(&["{}", "\"a\"", "\"b\""])).unwrap();
    match r.outcome {
        Outcome::Emit(bytes) => {
            // the block holds the first row, a delimiter, the second row,
            // and no trailing delimiter
            assert!(bytes.contains("a\0info\x1f"));
            assert!(bytes.contains("\u{b}b\0info\x1f"));
            assert!(!bytes.ends_with('\u{b}'));
        },
        Outcome::Again { .. } => panic!("no autoselect was asked for"),
    }
}

#[test]
fn zero_rows_emit_the_options_alone() {
    let data = Data::default();
    let info = Info::default();
    let r = process_output(&data, &info, &lines(&["{}"])).unwrap();
    match r.outcome {
        Outcome::Emit(bytes) => {
            assert!(bytes.starts_with("\0no-custom\x1ftrue\u{b}\0data\x1f"));
            assert!(bytes.ends_with('\u{b}'));
        },
        Outcome::Again { .. } => panic!("nothing to select"),
    }
}

#[test]
fn bad_row_lines_are_skipped_and_reported() {
    let data = Data::default();
    let info = Info::default();
    let r = process_output(
        &data,
        &info,
        &lines(&["{}", "\"a\"", "{oops", "{zzz:1}", "\"b\""]),
    )
    .unwrap();
    assert_eq!(r.skipped, vec![2, 3]);
    assert!(matches!(r.outcome, Outcome::Emit(_)));
}

#[test]
fn options_line_errors_are_fatal() {
    let data = Data::default();
    let info = Info::default();
    match process_output(&data, &info, &lines(&[])) {
        Err(e) => assert_eq!(e, OutputError::NoOptionsLine),
        Ok(_) => panic!("no lines means no options"),
    }
    match process_output(&data, &info, &lines(&["", ""])) {
        Err(e) => assert_eq!(e, OutputError::NoOptionsLine),
        Ok(_) => panic!("empty lines mean no options"),
    }
    match process_output(&data, &info, &lines(&["{oops"])) {
        Err(e) => assert_eq!(e, OutputError::BadOptionsLine),
        Ok(_) => panic!("a malformed options line is fatal"),
    }
    // empty lines before the options line are passed over
    let r = process_output(&data, &info, &lines(&["", "{}", "\"a\""])).unwrap();
    assert!(matches!(r.outcome, Outcome::Emit(_)));
}

#[test]
fn menu_override_merges_into_the_options_line() {
    let data = Data::default();
    let mut info = Info::default();
    let menu = menu_driver::options::options_from_json5("{autoselect:true}").unwrap();
    info.menu = Some(Box::new(menu));
    let r = process_output(&data, &info, &lines(&["{}", "\"only\""])).unwrap();
    assert!(matches!(r.outcome, Outcome::Again { .. }));
}
