use minitemplate::{
    escape_str, make_map_value, make_vec_value, parse_str, Context, ContextTrait, ContextValue,
    Float, MapValue, SetValue, SetValueForVecValue, VarOpt, VecValue,
};
use std::rc::Rc;

fn render(source: &str, c: &mut Context) -> String {
    parse_str(source).unwrap().render(c)
}

#[test]
fn a_missing_variable_shows_as_a_placeholder_or_as_nothing() {
    let mut c = Context::new();
    assert_eq!(render("{{ name }}", &mut c), "???name???");
    assert_eq!(render("{{ name:r }}", &mut c), "???name???");
    assert_eq!(render("{{ a.b-c_d }}", &mut c), "???a.b-c_d???");
    c.is_def_blank = true;
    assert_eq!(render("{{ name }}", &mut c), "");
    assert_eq!(render("[{{ name:xml }}]", &mut c), "[]");
}

#[test]
fn a_value_is_escaped_as_its_option_says() {
    let mut c = Context::new();
    c.set("v", "D< >D");
    assert_eq!(render("{{ v:html }}", &mut c), "D&lt;&nbsp;&gt;D");
    assert_eq!(render("{{ v:xml }}", &mut c), "D&lt;&nbsp;&gt;D");
    assert_eq!(render("{{ v:r }}", &mut c), "D< >D");
    assert_eq!(render("{{ v : raw }}", &mut c), "D< >D");
    assert_eq!(render("{{ v }}", &mut c), "D&lt;&nbsp;&gt;D");
    c.opt = VarOpt::RAW;
    assert_eq!(render("{{ v }}", &mut c), "D< >D");
    assert_eq!(render("{{ v:html }}", &mut c), "D&lt;&nbsp;&gt;D");
    c.opt = VarOpt::DEF;
    assert_eq!(render("{{ v }}", &mut c), "D< >D");
    c.opt = VarOpt::XML;
    c.set("w", "&\"'");
    assert_eq!(render("{{ w }}", &mut c), "&amp;&quot;&#39;");
}

#[test]
fn each_reserved_character_has_its_entity() {
    assert_eq!(escape_str(String::from("&"), &VarOpt::HTML), "&amp;");
    assert_eq!(escape_str(String::from("<"), &VarOpt::HTML), "&lt;");
    assert_eq!(escape_str(String::from(">"), &VarOpt::HTML), "&gt;");
    assert_eq!(escape_str(String::from("\""), &VarOpt::HTML), "&quot;");
    assert_eq!(escape_str(String::from("'"), &VarOpt::HTML), "&#39;");
    assert_eq!(escape_str(String::from(" "), &VarOpt::HTML), "&nbsp;");
    assert_eq!(escape_str(String::from("a-b"), &VarOpt::XML), "a-b");
}

#[test]
fn a_number_is_written_in_decimal() {
    let mut c = Context::new();
    c.set("zero", 0);
    c.set("small", -7);
    c.set("low", i32::MIN);
    c.set("high", i32::MAX);
    c.set("wide_low", i64::MIN);
    c.set("wide_high", i64::MAX);
    c.set("round", 1000i64);
    assert_eq!(render("{{ zero }}", &mut c), "0");
    assert_eq!(render("{{ small }}", &mut c), "-7");
    assert_eq!(render("{{ low }}", &mut c), "-2147483648");
    assert_eq!(render("{{ high }}", &mut c), "2147483647");
    assert_eq!(render("{{ wide_low }}", &mut c), "-9223372036854775808");
    assert_eq!(render("{{ wide_high }}", &mut c), "9223372036854775807");
    assert_eq!(render("{{ round }}", &mut c), "1000");
}

#[test]
fn a_boolean_is_written_as_a_word() {
    let mut c = Context::new();
    c.set("yes", true);
    c.set("no", false);
    assert_eq!(render("{{ yes }}/{{ no }}", &mut c), "true/false");
}

#[test]
fn a_map_or_a_sequence_is_written_as_nothing() {
    let mut c = Context::new();
    c.set("list", make_vec_value(&[ContextValue::from(1)]));
    c.put_item("map", ContextValue::from(make_map_value(&[("k", ContextValue::from(1))])));
    assert_eq!(render("[{{ list }}][{{ map }}]", &mut c), "[][]");
}

#[test]
fn a_number_with_a_fraction_is_written_as_it_was_given() {
    let mut c = Context::new();
    c.set("half", Float { text: String::from("0.5"), nonzero: true });
    c.set("none", Float { text: String::from("0"), nonzero: false });
    assert_eq!(render("{{ half }} {{ none:r }}", &mut c), "0.5 0");
    assert_eq!(
        render("{% if half %}a{% end %}{% if none %}b{% else %}c{% end %}", &mut c),
        "ac"
    );
}

#[test]
fn a_condition_holds_for_true_values_only() {
    let mut c = Context::new();
    let source = "{% if k %}yes{% else %}no{% end %}";
    assert_eq!(render(source, &mut c), "no");
    for word in ["true", "TRUE", "True", "t", "T", "1", "yes", "YES", "y", "Y"] {
        c.set("k", word);
        assert_eq!(render(source, &mut c), "yes", "{:?}", word);
    }
    for word in ["", "false", "0", "no", "n", "on", "truee", "2", "tr ue"] {
        c.set("k", word);
        assert_eq!(render(source, &mut c), "no", "{:?}", word);
    }
    c.set("k", true);
    assert_eq!(render(source, &mut c), "yes");
    c.set("k", false);
    assert_eq!(render(source, &mut c), "no");
    c.set("k", 0);
    assert_eq!(render(source, &mut c), "no");
    c.set("k", -1);
    assert_eq!(render(source, &mut c), "yes");
    c.set("k", 0i64);
    assert_eq!(render(source, &mut c), "no");
    c.set("k", 5i64);
    assert_eq!(render(source, &mut c), "yes");
    c.set("k", make_vec_value(&[ContextValue::from(1)]));
    assert_eq!(render(source, &mut c), "no");
    c.put_item("k", ContextValue::from(make_map_value(&[("k", ContextValue::from(1))])));
    assert_eq!(render(source, &mut c), "no");
}

#[test]
fn a_conditional_without_else_writes_its_branch_or_nothing() {
    let mut c = Context::new();
    let source = "[{% if cond %}in{% end %}]";
    assert_eq!(render(source, &mut c), "[]");
    c.set("cond", true);
    assert_eq!(render(source, &mut c), "[in]");
}

#[test]
fn a_loop_over_what_is_no_sequence_writes_nothing() {
    let mut c = Context::new();
    let source = "[{% for x in xs %}{{ x }}{{ missing }}{% end %}]";
    assert_eq!(render(source, &mut c), "[]");
    c.set("xs", "text");
    assert_eq!(render(source, &mut c), "[]");
    c.set("xs", 3);
    assert_eq!(render(source, &mut c), "[]");
    c.set("xs", make_vec_value(&[]));
    assert_eq!(render(source, &mut c), "[]");
}

#[test]
fn a_loop_writes_its_body_for_each_item_in_order() {
    let mut c = Context::new();
    c.set("ys", make_vec_value(&[1.into(), 2.into()]));
    c.set("xs", make_vec_value(&[3.into(), 4.into()]));
    assert_eq!(
        render("{% for y in ys %}{% for x in xs %}({{ y }},{{ x }}){% end %}{% end %}", &mut c),
        "(1,3)(1,4)(2,3)(2,4)"
    );
}

#[test]
fn a_loop_can_run_over_the_items_of_an_item() {
    let mut c = Context::new();
    let mut rows: VecValue = Vec::new();
    rows.set(make_vec_value(&["a".into(), "b".into()]));
    rows.set(make_vec_value(&[]));
    rows.set(make_vec_value(&["c".into()]));
    c.set("rows", rows);
    assert_eq!(
        render("{% for row in rows %}<{% for cell in row %}{{ cell }}{% end %}>{% end %}", &mut c),
        "<ab><><c>"
    );
}

#[test]
fn an_inner_binding_hides_an_outer_one() {
    let mut c = Context::new();
    c.set("x", "root");
    c.set("outer", make_vec_value(&["o".into()]));
    c.set("inner", make_vec_value(&["i".into()]));
    assert_eq!(
        render(
            "{{ x }}{% for x in outer %}{{ x }}{% for x in inner %}{{ x }}{% end %}{{ x }}{% end %}{{ x }}",
            &mut c
        ),
        "rootoioroot"
    );
}

#[test]
fn a_key_is_split_at_its_first_dot_only_for_a_binding() {
    let mut c = Context::new();
    c.set("a.b", "dotted");
    c.set("a", "plain");
    assert_eq!(c.get_str("a.b", &VarOpt::RAW), "dotted");
    assert_eq!(c.get_str("a", &VarOpt::RAW), "plain");

    let map = Rc::new(ContextValue::from(make_map_value(&[
        ("b", ContextValue::from("field")),
        ("c.d", ContextValue::from("deep")),
    ])));
    c.push("a", &map);
    assert_eq!(c.get_str("a.b", &VarOpt::RAW), "field");
    assert_eq!(c.get_str("a.c.d", &VarOpt::RAW), "deep");
    assert_eq!(c.get_str("a.zz", &VarOpt::RAW), "???a.zz???");
    assert_eq!(c.get_str("a", &VarOpt::RAW), "");
    assert!(c.get_item("a.zz").is_none());
    assert!(matches!(c.get_item("a").as_deref(), Some(ContextValue::MapValue(_))));
    c.pop();
    assert_eq!(c.get_str("a.b", &VarOpt::RAW), "dotted");

    let number = Rc::new(ContextValue::from(5));
    c.push("a", &number);
    assert_eq!(c.get_str("a.b", &VarOpt::RAW), "5");
    assert_eq!(c.get_str("a", &VarOpt::RAW), "5");
    c.pop();
    c.pop();
    assert_eq!(c.get_str("a", &VarOpt::RAW), "plain");
}

#[test]
fn a_context_hands_back_what_a_key_was_bound_to() {
    let mut c = Context::new();
    assert!(c.set("k", 1).is_none());
    let prev = c.set("k", "two");
    assert!(matches!(prev.as_deref(), Some(ContextValue::I32(1))));
    let prev = c.put_item("k", ContextValue::Bool(true));
    assert!(matches!(prev.as_deref(), Some(ContextValue::String(s)) if s == "two"));
    assert!(c.get_bool("k"));
    assert!(matches!(c.get_item("k").as_deref(), Some(ContextValue::Bool(true))));
    assert!(c.get_item("other").is_none());
    assert!(!c.get_bool("other"));
    assert!(c.get_vec("k").is_none());
}

#[test]
fn a_sequence_is_handed_out_with_its_items() {
    let mut c = Context::new();
    c.set("xs", make_vec_value(&["a".into(), 2.into(), 3i64.into()]));
    let items = c.get_vec("xs").unwrap();
    assert_eq!(items.len(), 3);
    assert!(matches!(&*items[0], ContextValue::String(s) if s == "a"));
    assert!(matches!(&*items[1], ContextValue::I32(2)));
    assert!(matches!(&*items[2], ContextValue::I64(3)));
}

#[test]
fn a_map_keeps_the_last_value_of_a_key() {
    let map = make_map_value(&[
        ("k", ContextValue::from(1)),
        ("other", ContextValue::from("x")),
        ("k", ContextValue::from(2)),
    ]);
    assert!(matches!(map.get("k").map(|v| &**v), Some(ContextValue::I32(2))));
    assert!(matches!(map.get("other").map(|v| &**v), Some(ContextValue::String(s)) if s == "x"));
    assert!(map.get("none").is_none());

    let mut map = MapValue::new();
    assert!(map.get("k").is_none());
    assert!(map.set("k", "v1").is_none());
    let prev = map.set("k", 7i64);
    assert!(matches!(prev.as_deref(), Some(ContextValue::String(s)) if s == "v1"));
    assert!(matches!(map.get("k").map(|v| &**v), Some(ContextValue::I64(7))));
    assert!(map.set("b", true).is_none());
    assert!(map.set("l", make_vec_value(&[])).is_none());
    assert!(map.set("s", String::from("owned")).is_none());
    assert!(map.set("i", 3).is_none());
    assert!(matches!(map.get("b").map(|v| &**v), Some(ContextValue::Bool(true))));
    assert!(matches!(map.get("k").map(|v| &**v), Some(ContextValue::I64(7))));
}

#[test]
fn a_sequence_takes_values_of_every_kind() {
    let mut items: VecValue = Vec::new();
    items.set(String::from("owned"));
    items.set("borrowed");
    items.set(true);
    items.set(1);
    items.set(2i64);
    items.set(Float { text: String::from("2.5"), nonzero: true });
    items.set(make_vec_value(&[]));
    items.set(MapValue::new());
    let mut c = Context::new();
    c.set("items", items);
    assert_eq!(
        render("{% for i in items %}[{{ i }}]{% end %}", &mut c),
        "[owned][borrowed][true][1][2][2.5][][]"
    );
}

#[test]
fn a_copy_of_a_value_reads_the_same() {
    let first = ContextValue::from(make_map_value(&[
        ("name", ContextValue::from("n")),
        ("list", ContextValue::from(make_vec_value(&[1.into(), "two".into()]))),
    ]));
    let second = first.clone();
    let mut c = Context::new();
    c.set("rows", make_vec_value(&[first, second]));
    assert_eq!(
        render(
            "{% for r in rows %}{{ r.name }}:{% for x in r.list %}{{ x }};{% end %}|{% end %}",
            &mut c
        ),
        "n:1;two;|n:1;two;|"
    );
}

#[test]
fn rendering_adds_to_what_is_written_and_leaves_the_context_alone() {
    let t = parse_str("{% for x in xs %}{{ x }}{% end %}{{ x }}").unwrap();
    let mut c = Context::new();
    c.set("xs", make_vec_value(&[1.into(), 2.into()]));
    let mut out = String::from("before:");
    t.write_to(&mut c, &mut out);
    assert_eq!(out, "before:12???x???");
    t.write_to(&mut c, &mut out);
    assert_eq!(out, "before:12???x???12???x???");
    assert!(c.stack.is_empty());
}

#[test]
fn a_context_can_be_used_through_its_trait() {
    let t = parse_str("{{ a }}{% if b %}!{% end %}").unwrap();
    let mut c = Context::new();
    c.set("a", "x");
    c.set("b", "y");
    let dynamic: &mut dyn ContextTrait = &mut c;
    assert_eq!(t.render(dynamic), "x!");
}
