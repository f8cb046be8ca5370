use menu_driver::data::{Data, Info, data_from_json5, data_to_json5, info_from_json5, info_to_json5};
use menu_driver::driver::{restore_data, restore_info};
use menu_driver::json::Json;
use menu_driver::options::{ModeOptions, Markup, Selection, decode_options, options_from_json5};
use menu_driver::value::VecString;

const FULL_INFO: &str =
    "{\"push_call\":\"x\",\"push\":[],\"pop_call\":0,\"pop\":0,\"exec\":[],\"fork\":false,\"menu\":null}";

#[test]
fn data_round_trips_through_json5_text() {
    let d = Data {
        stack: vec!["a".to_string(), "b".to_string()],
        call_stack: vec!["/r.sh".to_string()],
        fallback: None,
    };
    let text = data_to_json5(&d).unwrap();
    let back = data_from_json5(&text).unwrap();
    assert_eq!(back.stack, d.stack);
    assert_eq!(back.call_stack, d.call_stack);
    assert!(back.fallback.is_none());
}

#[test]
fn data_with_fallback_round_trips() {
    let d = Data {
        stack: vec![],
        call_stack: vec!["/r.sh".to_string()],
        fallback: Some(Info {
            push_call: VecString::Single("/show.sh".to_string()),
            push: VecString::Multi(vec![VecString::UserInput]),
            pop_call: Some(0),
            pop: Some(0),
            exec_cmd: VecString::Multi(vec![]),
            fork: false,
            menu: None,
        }),
    };
    let text = data_to_json5(&d).unwrap();
    let back = data_from_json5(&text).unwrap();
    let fb = back.fallback.unwrap();
    assert_eq!(fb.pop_call, Some(0));
    assert_eq!(fb.push_call.flatten("u"), "/show.sh");
    assert_eq!(fb.push.flatten1("Alice"), vec!["Alice"]);
}

#[test]
fn info_text_round_trips_modulo_key_order() {
    let scrambled =
        "{menu:null,fork:false,exec:[],pop:0,pop_call:2,push:[\"v\"],push_call:\"s\"}";
    let i = info_from_json5(scrambled).unwrap();
    assert_eq!(i.pop_call, Some(2));
    let text = info_to_json5(&i).unwrap();
    assert_eq!(
        text,
        "{\"push_call\":\"s\",\"push\":[\"v\"],\"pop_call\":2,\"pop\":0,\"exec\":[],\"fork\":false,\"menu\":null}"
    );
    let again = info_from_json5(&text).unwrap();
    assert_eq!(again.pop_call, Some(2));
    assert_eq!(again.push.flatten("u"), "v");
}

#[test]
fn info_schema_requires_every_field() {
    let missing = "{\"push_call\":\"x\"}";
    assert!(info_from_json5(missing).is_none());
}

#[test]
fn info_schema_rejects_unknown_and_duplicate_keys() {
    let unknown =
        "{push_call:\"x\",push:[],pop_call:0,pop:0,exec:[],fork:false,menu:null,zzz:1}";
    assert!(info_from_json5(unknown).is_none());
    let dup = "{\"push\":[],\"push\":[],\"pop_call\":0,\"pop\":0,\"exec\":[],\"fork\":false,\"menu\":null}";
    // the JSON5 parser collapses duplicate keys, so this object never
    // names `push_call` and stays incomplete
    assert!(info_from_json5(dup).is_none());
}

#[test]
fn info_rejects_negative_and_fractional_pop() {
    assert!(info_from_json5(&FULL_INFO.replace("\"pop\":0", "\"pop\":-1")).is_none());
    assert!(info_from_json5(&FULL_INFO.replace("\"pop\":0", "\"pop\":1.5")).is_none());
}

#[test]
fn restore_data_falls_back_to_default() {
    let d = restore_data(&Some("not json5 at all".to_string()));
    assert!(d.stack.is_empty());
    assert!(d.call_stack.is_empty());
    assert!(d.fallback.is_none());
    let d2 = restore_data(&None);
    assert!(d2.call_stack.is_empty());
}

#[test]
fn restore_info_uses_fallback_when_absent() {
    let data = Data {
        stack: vec![],
        call_stack: vec![],
        fallback: Some(Info {
            push_call: VecString::Single("/f.sh".to_string()),
            push: VecString::Multi(vec![]),
            pop_call: Some(0),
            pop: Some(0),
            exec_cmd: VecString::Multi(vec![]),
            fork: false,
            menu: None,
        }),
    };
    let i = restore_info(&None, &data).unwrap();
    assert_eq!(i.push_call.flatten(""), "/f.sh");
    // a present but malformed value is fatal
    assert!(restore_info(&Some("{oops".to_string()), &data).is_none());
    // a present value must hold the exact schema
    let i2 = restore_info(&Some(FULL_INFO.to_string()), &data).unwrap();
    assert_eq!(i2.push_call.flatten(""), "x");
}

#[test]
fn options_schema_reads_every_key() {
    let line = "{prompt:\"p\",message:\"m\",markup:\"pango\",select:3,autoselect:true}";
    let o = options_from_json5(line).unwrap();
    assert_eq!(o.prompt.as_deref(), Some("p"));
    assert_eq!(o.message.as_deref(), Some("m"));
    assert_eq!(o.markup, Some(Markup::Pango));
    assert_eq!(o.selection, Some(Selection::SetTo(3)));
    assert!(o.autoselect);
    assert!(o.data.fallback.is_none());
}

#[test]
fn options_selection_alias_and_keep() {
    let o = options_from_json5("{selection:null}").unwrap();
    assert_eq!(o.selection, Some(Selection::Keep));
    let o2 = options_from_json5("{selection:-2}").unwrap();
    assert_eq!(o2.selection, Some(Selection::SetTo(-2)));
}

#[test]
fn options_schema_rejects_bad_values() {
    assert!(options_from_json5("{markup:\"html\"}").is_none());
    assert!(options_from_json5("{prompt:3}").is_none());
    assert!(options_from_json5("{zzz:1}").is_none());
    assert!(options_from_json5("{autoselect:1}").is_none());
    assert!(decode_options(&Json::Str("x".to_string())).is_none());
}

#[test]
fn options_fallback_uses_alias_schema() {
    let o = options_from_json5("{fallback:{push:[null],jump:\"/show.sh\"}}").unwrap();
    let fb = o.data.fallback.unwrap();
    assert_eq!(fb.push.flatten1("Alice"), vec!["Alice"]);
    assert_eq!(fb.push_call.flatten(""), "/show.sh");
    // the exact schema's key names are not aliases
    assert!(options_from_json5("{fallback:{push_call:\"x\"}}").is_none());
}

#[test]
fn goto_raises_a_present_pop_count() {
    let fb = |line: &str| -> Info {
        options_from_json5(line).unwrap().data.fallback.unwrap()
    };
    // from the default pop count of zero, `goto` makes it one
    let f = fb("{fallback:{goto:\"/x.sh\"}}");
    assert_eq!(f.pop_call, Some(1));
    assert_eq!(f.push_call.flatten(""), "/x.sh");
    // an explicit `return` before it is raised by one
    let f2 = fb("{fallback:{return:2,goto:\"/x.sh\"}}");
    assert_eq!(f2.pop_call, Some(2 + 1));
    // a cleared stack stays cleared
    let f3 = fb("{fallback:{return:null,goto:\"/x.sh\"}}");
    assert_eq!(f3.pop_call, None);
    // last write wins when both appear the other way round
    let f4 = fb("{fallback:{goto:\"/x.sh\",return:null}}");
    assert_eq!(f4.pop_call, None);
}

#[test]
fn merge_overrides_present_fields_and_keeps_stacks() {
    let mut base = ModeOptions::default();
    base.prompt = Some("old".to_string());
    base.data.stack = vec!["s".to_string()];
    base.autoselect = true;
    let over = options_from_json5("{prompt:\"new\",message:\"m\"}").unwrap();
    base.merge(&over);
    assert_eq!(base.prompt.as_deref(), Some("new"));
    assert_eq!(base.message.as_deref(), Some("m"));
    assert_eq!(base.data.stack, vec!["s".to_string()]);
    // autoselect is sticky: false never overrides true
    assert!(base.autoselect);
}
