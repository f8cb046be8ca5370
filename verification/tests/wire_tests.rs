use menu_driver::data::{Data, Info, data_from_json5};
use menu_driver::options::{ModeOptions, Markup, Selection, options_from_json5, options_to_json5};
use menu_driver::row::{Row, row_from_json5};
use menu_driver::value::VecString;
use menu_driver::driver::preamble;

const DEFAULT_INFO_TEXT: &str =
    "{\"push_call\":[],\"push\":[],\"pop_call\":0,\"pop\":0,\"exec\":[],\"fork\":false,\"menu\":null}";

#[test]
fn preamble_sets_the_delimiter() {
    assert_eq!(menu_driver::DELIM, '\u{b}');
    assert_eq!(preamble(), format!("\0delim\x1f{}\n", menu_driver::DELIM));
}

#[test]
fn row_encodes_text_and_info() {
    let mut row = Row::default();
    row.text = "hello".to_string();
    let expected = format!("hello\0info\x1f{}", DEFAULT_INFO_TEXT);
    assert_eq!(row.to_rofi().unwrap(), expected);
}

#[test]
fn row_encodes_every_attribute_in_order() {
    let row = Row {
        text: "t".to_string(),
        icon: "i".to_string(),
        meta: "m".to_string(),
        selectable: false,
        urgent: true,
        active: true,
        info: Info::default(),
    };
    let expected = format!(
        "t\0icon\x1fi\x1fmeta\x1fm\x1fnonselectable\x1ftrue\x1finfo\x1f{}\x1furgent\x1ftrue\x1factive\x1ftrue",
        DEFAULT_INFO_TEXT
    );
    assert_eq!(row.to_rofi().unwrap(), expected);
}

#[test]
fn empty_text_suppresses_the_row() {
    let row = Row::default();
    assert!(row.to_rofi().is_none());
    let parsed = row_from_json5("{icon:\"i\"}").unwrap();
    assert!(parsed.to_rofi().is_none());
}

#[test]
fn row_info_carries_the_transition() {
    let mut row = Row::default();
    row.text = "x".to_string();
    row.info.pop = None;
    assert_eq!(
        row.info().unwrap(),
        "{\"push_call\":[],\"push\":[],\"pop_call\":0,\"pop\":null,\"exec\":[],\"fork\":false,\"menu\":null}"
    );
}

#[test]
fn options_block_announces_no_custom_without_fallback() {
    let opts = ModeOptions::default();
    let expected = format!(
        "\0no-custom\x1ftrue\x0b\0data\x1f{}\x0b",
        "{\"stack\":[],\"call_stack\":[],\"fallback\":null}"
    );
    assert_eq!(opts.to_rofi().unwrap(), expected);
}

#[test]
fn options_block_omits_no_custom_with_fallback() {
    let mut opts = ModeOptions::default();
    opts.data.fallback = Some(Info::default());
    let encoded = opts.to_rofi().unwrap();
    assert!(!encoded.contains("no-custom"));
    assert!(encoded.contains("\0data\x1f"));
}

#[test]
fn options_block_renders_each_setting() {
    let mut opts = ModeOptions::default();
    opts.prompt = Some("p".to_string());
    opts.message = Some("m".to_string());
    opts.markup = Some(Markup::Pango);
    opts.selection = Some(Selection::SetTo(-3));
    let expected = format!(
        "\0prompt\x1fp\x0b\0message\x1fm\x0b\0markup-rows\x1ftrue\x0b\0no-custom\x1ftrue\x0b\0keep-selection\x1ftrue\x0b\0new-selection\x1f-3\x0b\0data\x1f{}\x0b",
        "{\"stack\":[],\"call_stack\":[],\"fallback\":null}"
    );
    assert_eq!(opts.to_rofi().unwrap(), expected);
}

#[test]
fn selection_index_renders_at_the_extremes() {
    let mut opts = ModeOptions::default();
    opts.selection = Some(Selection::SetTo(i64::MIN));
    let encoded = opts.to_rofi().unwrap();
    assert!(encoded.contains("\0new-selection\x1f-9223372036854775808\u{b}"));
    opts.selection = Some(Selection::SetTo(0));
    assert!(opts.to_rofi().unwrap().contains("\0new-selection\x1f0\u{b}"));
}

#[test]
fn data_option_value_carries_the_stacks() {
    let mut opts = ModeOptions::default();
    opts.data = Data {
        stack: vec!["a".to_string()],
        call_stack: vec!["/r.sh".to_string()],
        fallback: None,
    };
    let encoded = opts.to_rofi().unwrap();
    let data_part = encoded
        .split('\u{b}')
        .find(|seg| seg.starts_with("\0data\x1f"))
        .unwrap();
    let decoded = data_from_json5(&data_part["\0data\x1f".len()..]).unwrap();
    assert_eq!(decoded.stack, vec!["a".to_string()]);
    assert_eq!(decoded.call_stack, vec!["/r.sh".to_string()]);
}

#[test]
fn row_shorthand_is_just_text() {
    let row = row_from_json5("\"Apps\"").unwrap();
    assert_eq!(row.text, "Apps");
    assert!(row.selectable);
    let expected = format!("Apps\0info\x1f{}", DEFAULT_INFO_TEXT);
    assert_eq!(row.to_rofi().unwrap(), expected);
}

#[test]
fn row_object_mixes_row_and_transition_keys() {
    let row = row_from_json5("{text:\"Apps\",jump:\"/apps.sh\",urgent:true}").unwrap();
    assert_eq!(row.text, "Apps");
    assert!(row.urgent);
    assert_eq!(row.info.push_call.flatten(""), "/apps.sh");
    assert!(row_from_json5("{text:\"x\",zzz:1}").is_none());
}

#[test]
fn row_menu_key_carries_an_options_override() {
    let row = row_from_json5("{text:\"x\",menu:{autoselect:true}}").unwrap();
    let menu = row.info.menu.unwrap();
    assert!(menu.autoselect);
    // a null menu is not an options object under the alias schema
    assert!(row_from_json5("{text:\"x\",menu:null}").is_none());
}

#[test]
fn unjson5_emits_strict_json() {
    assert_eq!(
        menu_driver::driver::unjson5("{a:1,b:'x',}").unwrap(),
        "{\"a\":1,\"b\":\"x\"}"
    );
    assert!(menu_driver::driver::unjson5("{oops").is_none());
}

#[test]
fn options_round_trip_through_serialization() {
    let o = options_from_json5("{prompt:\"p\",select:7,autoselect:true}").unwrap();
    let text = options_to_json5(&o).unwrap();
    assert_eq!(text, "{\"prompt\":\"p\",\"select\":7,\"autoselect\":true}");
    let back = options_from_json5(&text).unwrap();
    assert_eq!(back.prompt.as_deref(), Some("p"));
    assert_eq!(back.selection, Some(Selection::SetTo(7)));
    assert!(back.autoselect);
}

#[test]
fn vecstring_duplicate_is_deep() {
    let t = VecString::Multi(vec![
        VecString::Single("a".to_string()),
        VecString::UserInput,
    ]);
    let u = t.duplicate();
    assert_eq!(u.flatten("X"), "aX");
}
