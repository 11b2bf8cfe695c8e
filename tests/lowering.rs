use lingui_macro::builder::MessageBuilder;
use lingui_macro::icu::{ObjProp, PropValue};
use lingui_macro::markup::{AttrValue, JsxAttr, JsxChild, JsxElem, MsgToken};
use lingui_macro::template::{transform_tpl_to_msg_and_values, Template};
use lingui_macro::text::{normalize_whitespaces, write_decimal};
use lingui_macro::transform::{
    is_lingui_fn, scan_core_import, CallArg, Callee, TplTag, TransformVisitor,
};
use lingui_macro::values::{dedup_values, ExprItem, ExprKind, ExprRef, ValueWithPlaceholder};

fn ident(name: &str, id: usize) -> ExprItem {
    ExprItem { kind: ExprKind::Ident(name.to_string()), expr: ExprRef::Host(id) }
}

fn other(id: usize) -> ExprItem {
    ExprItem { kind: ExprKind::Other, expr: ExprRef::Host(id) }
}

fn strlit(s: &str, id: usize) -> ExprItem {
    ExprItem { kind: ExprKind::Str(s.to_string()), expr: ExprRef::Host(id) }
}

fn tpl(quasis: &[&str], exprs: Vec<ExprItem>) -> Template {
    Template { quasis: quasis.iter().map(|q| q.to_string()).collect(), exprs }
}

fn pairs(v: &[ValueWithPlaceholder]) -> Vec<(String, ExprRef)> {
    v.iter().map(|x| (x.placeholder.clone(), x.value)).collect()
}

fn key(k: &str, id: usize) -> (String, ExprRef) {
    (k.to_string(), ExprRef::Host(id))
}

fn active() -> TransformVisitor {
    let mut v = TransformVisitor::new();
    assert!(!v.observe_import(&"@lingui/macro".to_string()));
    v
}

fn t_tag() -> TplTag {
    TplTag::Ident("t".to_string())
}

fn prop(k: &str, value: PropValue) -> ObjProp {
    ObjProp { key: Some(k.to_string()), value }
}

fn str_prop(k: &str, s: &str) -> ObjProp {
    prop(k, PropValue::Str(s.to_string()))
}

fn text(s: &str) -> JsxChild {
    JsxChild::Text(s.to_string())
}

fn elem(name: &str, tag: usize, attrs: Vec<JsxAttr>, children: Vec<JsxChild>) -> JsxChild {
    JsxChild::Element(JsxElem { name: Some(name.to_string()), tag, attrs, children })
}

fn attr(name: &str, value: AttrValue) -> JsxAttr {
    JsxAttr { name: Some(name.to_string()), value: Some(value) }
}

fn trans() -> Option<String> {
    Some("Trans".to_string())
}

#[test]
fn template_scenario_named_values() {
    let mut v = active();
    let t = tpl(&["Refresh ", " inbox ", ""], vec![ident("foo", 0), ident("bar", 1)]);
    let call = v.fold_tagged_template(&t_tag(), &t).unwrap();
    assert_eq!(call.callee, Callee::DefaultI18n);
    assert_eq!(call.message, "Refresh {foo} inbox {bar}");
    assert_eq!(pairs(&call.values), vec![key("foo", 0), key("bar", 1)]);
    assert!(v.should_add_18n_import);
    assert!(!v.should_add_trans_import);
}

#[test]
fn substitution_in_tpl_literal() {
    let mut v = active();
    let c = v.fold_tagged_template(&t_tag(), &tpl(&["Refresh inbox"], vec![])).unwrap();
    assert_eq!(c.message, "Refresh inbox");
    assert!(c.values.is_empty());
    let c = v
        .fold_tagged_template(&t_tag(), &tpl(&["Refresh ", " inbox ", ""], vec![other(3), ident("bar", 4)]))
        .unwrap();
    assert_eq!(c.message, "Refresh {0} inbox {bar}");
    assert_eq!(pairs(&c.values), vec![key("0", 3), key("bar", 4)]);
    let c = v.fold_tagged_template(&t_tag(), &tpl(&["Refresh ", ""], vec![other(5)])).unwrap();
    assert_eq!(c.message, "Refresh {0}");
    assert_eq!(pairs(&c.values), vec![key("0", 5)]);
}

#[test]
fn dedup_values_in_tpl_literal() {
    let mut v = active();
    let c = v
        .fold_tagged_template(&t_tag(), &tpl(&["Refresh ", " inbox ", ""], vec![ident("foo", 0), ident("foo", 1)]))
        .unwrap();
    assert_eq!(c.message, "Refresh {foo} inbox {foo}");
    assert_eq!(pairs(&c.values), vec![key("foo", 0)]);
}

#[test]
fn custom_i18n_passed() {
    let mut v = active();
    let tag = TplTag::Call { callee: Some("t".to_string()), args: vec![9] };
    let c = v.fold_tagged_template(&tag, &tpl(&["Refresh ", " inbox ", ""], vec![ident("foo", 0), ident("bar", 1)])).unwrap();
    assert_eq!(c.callee, Callee::Host(9));
    assert_eq!(c.message, "Refresh {foo} inbox {bar}");
    assert!(!v.should_add_18n_import);
}

#[test]
fn should_not_touch_not_related_tagget_tpls() {
    let mut v = active();
    let t = tpl(&["Refresh inbox"], vec![]);
    assert!(v.fold_tagged_template(&TplTag::Ident("b".to_string()), &t).is_none());
    let tag = TplTag::Call { callee: Some("b".to_string()), args: vec![1] };
    assert!(v.fold_tagged_template(&tag, &t).is_none());
    let tag = TplTag::Call { callee: Some("t".to_string()), args: vec![1, 2] };
    assert!(v.fold_tagged_template(&tag, &t).is_none());
    assert!(!v.should_add_18n_import);
}

#[test]
fn should_not_touch_code_if_no_macro_import() {
    let mut v = TransformVisitor::new();
    assert!(v.observe_import(&"@lingui/core".to_string()));
    let t = tpl(&["Refresh inbox"], vec![]);
    assert!(v.fold_tagged_template(&t_tag(), &t).is_none());
    let args = vec![
        CallArg { expr: ident("count", 0), object: None },
        CallArg { expr: other(1), object: Some(vec![str_prop("one", "# Book")]) },
    ];
    assert!(v.fold_call(&Some("plural".to_string()), args).is_none());
    assert!(v.fold_jsx_element(&trans(), &vec![], &vec![text("Hello")]).is_none());
    assert!(!v.should_add_18n_import && !v.should_add_trans_import);
    assert!(v.missing_imports(false, false).is_empty());
}

fn plural_call(v: &mut TransformVisitor, method: &str, control: ExprItem, props: Vec<ObjProp>) -> Option<lingui_macro::transform::I18nCall> {
    let args = vec![
        CallArg { expr: control, object: None },
        CallArg { expr: other(99), object: Some(props) },
    ];
    v.fold_call(&Some(method.to_string()), args)
}

#[test]
fn icu_functions() {
    let mut v = active();
    let c = plural_call(&mut v, "plural", ident("count", 0), vec![str_prop("one", "# Book"), str_prop("other", "# Books")]).unwrap();
    assert_eq!(c.message, "{count, plural, one {# Book} other {# Books}}");
    assert_eq!(pairs(&c.values), vec![key("count", 0)]);
    assert_eq!(c.callee, Callee::DefaultI18n);
    let c = plural_call(&mut v, "select", ident("gender", 1), vec![
        str_prop("male", "he"), str_prop("female", "she"), str_prop("other", "they"),
    ]).unwrap();
    assert_eq!(c.message, "{gender, select, male {he} female {she} other {they}}");
    assert_eq!(pairs(&c.values), vec![key("gender", 1)]);
    let c = plural_call(&mut v, "selectOrdinal", ident("count", 2), vec![
        str_prop("one", "#st"), str_prop("two", "#nd"), str_prop("few", "#rd"), str_prop("other", "#th"),
    ]).unwrap();
    assert_eq!(c.message, "{count, selectOrdinal, one {#st} two {#nd} few {#rd} other {#th}}");
    assert!(v.should_add_18n_import);
}

#[test]
fn should_not_touch_non_lungui_fns() {
    let mut v = active();
    assert!(plural_call(&mut v, "customName", ident("count", 0), vec![str_prop("one", "# Book")]).is_none());
    let args = vec![CallArg { expr: ident("count", 0), object: None }];
    assert!(v.fold_call(&Some("plural".to_string()), args).is_none());
    let args = vec![
        CallArg { expr: ident("count", 0), object: None },
        CallArg { expr: other(1), object: None },
    ];
    assert!(v.fold_call(&Some("plural".to_string()), args).is_none());
    assert!(!v.should_add_18n_import);
}

#[test]
fn plural_with_placeholders() {
    let mut v = active();
    let c = plural_call(&mut v, "plural", ident("count", 0), vec![
        prop("one", PropValue::Tpl(tpl(&["", " has # friend"], vec![ident("name", 1)]))),
        prop("other", PropValue::Tpl(tpl(&["", " has # friends"], vec![ident("name", 2)]))),
    ]).unwrap();
    assert_eq!(c.message, "{count, plural, one {{name} has # friend} other {{name} has # friends}}");
    assert_eq!(pairs(&c.values), vec![key("count", 0), key("name", 1)]);
}

#[test]
fn dedup_values_in_icu() {
    let mut v = active();
    let c = plural_call(&mut v, "plural", ident("count", 0), vec![
        prop("one", PropValue::Tpl(tpl(&["", " has ", " friend"], vec![ident("name", 1), ident("count", 2)]))),
        prop("other", PropValue::Tpl(tpl(&["", " has {count} friends"], vec![ident("name", 3)]))),
    ]).unwrap();
    assert_eq!(c.message, "{count, plural, one {{name} has {count} friend} other {{name} has {count} friends}}");
    assert_eq!(pairs(&c.values), vec![key("count", 0), key("name", 1)]);
}

#[test]
fn choice_with_unnamed_control_and_skipped_props() {
    let mut v = active();
    let c = plural_call(&mut v, "plural", other(4), vec![
        str_prop("one", "a"),
        ObjProp { key: None, value: PropValue::Str("spread".to_string()) },
        prop("few", PropValue::Other),
        str_prop("other", "b"),
    ]).unwrap();
    assert_eq!(c.message, "{0, plural, one {a} other {b}}");
    assert_eq!(pairs(&c.values), vec![key("0", 4)]);
}

#[test]
fn simple_jsx() {
    let mut v = active();
    assert!(v.fold_jsx_element(&Some("Custom".to_string()), &vec![], &vec![text("Refresh inbox")]).is_none());
    let t = v.fold_jsx_element(&trans(), &vec![], &vec![text("Refresh inbox")]).unwrap();
    assert_eq!(t.id_attr, "id");
    assert_eq!(t.message, "Refresh inbox");
    assert!(t.values.is_empty() && t.components.is_empty());
    assert!(v.should_add_trans_import);
    assert!(!v.should_add_18n_import);
}

#[test]
fn preserve_id_in_trans() {
    let mut v = active();
    let attrs = vec![attr("id", AttrValue::Str("custom.id".to_string()))];
    let t = v.fold_jsx_element(&trans(), &attrs, &vec![text("Refresh inbox")]).unwrap();
    assert_eq!(t.id_attr, "message");
    assert_eq!(t.message, "Refresh inbox");
}

#[test]
fn jsx_interpolation() {
    let mut v = active();
    let children = vec![
        text("\n          Property "), JsxChild::Expr(other(0)),
        text(",\n          function "), JsxChild::Expr(other(1)),
        text(",\n          array "), JsxChild::Expr(other(2)),
        text(",\n          constant "), JsxChild::Expr(other(3)),
        text(",\n          object "), JsxChild::Expr(other(4)),
        text(",\n          everything "), JsxChild::Expr(other(5)),
        text("\n        "),
    ];
    let t = v.fold_jsx_element(&trans(), &vec![], &children).unwrap();
    assert_eq!(t.message, "Property {0}, function {1}, array {2}, constant {3}, object {4}, everything {5}");
    assert_eq!(pairs(&t.values), (0..6).map(|i| key(&i.to_string(), i)).collect::<Vec<_>>());
}

#[test]
fn trans_scenario_repeated_value() {
    let mut v = active();
    let children = vec![text("\n          Hello "), JsxChild::Expr(ident("foo", 0)), text(" and "), JsxChild::Expr(ident("foo", 1)), text("\n        ")];
    let t = v.fold_jsx_element(&trans(), &vec![], &children).unwrap();
    assert_eq!(t.id_attr, "id");
    assert_eq!(t.message, "Hello {foo} and {foo}");
    assert_eq!(pairs(&t.values), vec![key("foo", 0)]);
    assert!(t.components.is_empty());
}

#[test]
fn trans_scenario_components() {
    let mut v = active();
    let children = vec![
        text("Hello "),
        elem("strong", 10, vec![], vec![text("World!")]),
        elem("br", 11, vec![], vec![]),
    ];
    let t = v.fold_jsx_element(&trans(), &vec![], &children).unwrap();
    assert_eq!(t.message, "Hello <0>World!</0><1/>");
    assert!(t.values.is_empty());
    assert_eq!(t.components, vec![10, 11]);
}

#[test]
fn jsx_components_interpolation() {
    let mut v = active();
    let children = vec![
        text("\n          Hello "),
        elem("strong", 20, vec![], vec![text("World!")]),
        elem("br", 21, vec![], vec![]),
        text("\n          "),
        elem("p", 22, vec![], vec![
            text("\n            My name is "),
            elem("a", 23, vec![attr("href", AttrValue::Str("/about".to_string()))], vec![
                JsxChild::Expr(strlit(" ", 30)),
                text("\n            "),
                elem("em", 24, vec![], vec![JsxChild::Expr(ident("name", 31))]),
            ]),
            text("\n          "),
        ]),
        text("\n        "),
    ];
    let t = v.fold_jsx_element(&trans(), &vec![], &children).unwrap();
    // Text is kept as written and whitespace runs collapse once over the whole
    // message, so the line breaks around `<p>` leave single spaces.
    assert_eq!(t.message, "Hello <0>World!</0><1/> <2> My name is <3> <4>{name}</4></3> </2>");
    assert_eq!(pairs(&t.values), vec![key("name", 31)]);
    assert_eq!(t.components, vec![20, 21, 22, 23, 24]);
}

#[test]
fn jsx_icu_nested() {
    let mut v = active();
    let plural = elem("Plural", 40, vec![
        attr("value", AttrValue::Expr(ident("count", 7))),
        attr("one", AttrValue::Str("Message".to_string())),
        attr("other", AttrValue::Str("Messages".to_string())),
    ], vec![]);
    let children = vec![text("\n       You have"), JsxChild::Expr(strlit(" ", 8)), text("\n          "), plural, text("\n      ")];
    let t = v.fold_jsx_element(&trans(), &vec![], &children).unwrap();
    assert_eq!(t.message, "You have {count, plural, one {Message} other {Messages}}");
    assert_eq!(pairs(&t.values), vec![key("count", 7)]);
    assert!(t.components.is_empty());
}

#[test]
fn plural_element_without_value_uses_null() {
    let mut v = active();
    let plural = elem("Plural", 40, vec![
        attr("one", AttrValue::Expr(strlit("# item", 1))),
        attr("other", AttrValue::Other),
        JsxAttr { name: None, value: None },
    ], vec![text("ignored")]);
    let t = v.fold_jsx_element(&trans(), &vec![], &vec![plural]).unwrap();
    assert_eq!(t.message, "{0, plural, one {# item} other {}}");
    assert_eq!(t.values.len(), 1);
    assert_eq!(t.values[0].placeholder, "0");
    assert_eq!(t.values[0].value, ExprRef::Null);
}

#[test]
fn should_not_add_extra_imports() {
    let mut v = active();
    let locals = vec!["i18n".to_string(), "Trans".to_string()];
    let (has_i18n, has_trans) = scan_core_import(&"@lingui/core".to_string(), false, &locals);
    assert!(has_i18n && has_trans);
    v.fold_tagged_template(&t_tag(), &tpl(&["Test"], vec![])).unwrap();
    v.fold_jsx_element(&trans(), &vec![], &vec![text("Test")]).unwrap();
    assert!(v.missing_imports(has_i18n, has_trans).is_empty());
    assert_eq!(v.missing_imports(false, false), vec!["i18n".to_string(), "Trans".to_string()]);
    assert_eq!(v.missing_imports(true, false), vec!["Trans".to_string()]);
}

#[test]
fn type_only_or_other_imports_do_not_count() {
    let locals = vec!["i18n".to_string(), "Trans".to_string()];
    assert_eq!(scan_core_import(&"@lingui/core".to_string(), true, &locals), (false, false));
    assert_eq!(scan_core_import(&"./i18n".to_string(), false, &locals), (false, false));
    assert_eq!(scan_core_import(&"@lingui/core".to_string(), false, &vec!["i18n".to_string()]), (true, false));
}

#[test]
fn lingui_fn_names() {
    assert!(is_lingui_fn(&"plural".to_string()));
    assert!(is_lingui_fn(&"select".to_string()));
    assert!(is_lingui_fn(&"selectOrdinal".to_string()));
    assert!(!is_lingui_fn(&"Plural".to_string()));
}

#[test]
fn whitespace_normalization() {
    assert_eq!(normalize_whitespaces("  Hello \n\t  {name}  world \r\n"), "Hello {name} world");
    assert_eq!(normalize_whitespaces(""), "");
    assert_eq!(normalize_whitespaces(" \n "), "");
    let once = normalize_whitespaces("\n a  <0>b</0>\t{c} ");
    assert_eq!(once, "a <0>b</0> {c}");
    assert_eq!(normalize_whitespaces(&once), once);
    assert_eq!(normalize_whitespaces("{a}{b}"), "{a}{b}");
}

#[test]
fn dedup_keeps_first_and_is_idempotent() {
    let v = vec![
        ValueWithPlaceholder { placeholder: "a".to_string(), value: ExprRef::Host(0) },
        ValueWithPlaceholder { placeholder: "0".to_string(), value: ExprRef::Host(1) },
        ValueWithPlaceholder { placeholder: "a".to_string(), value: ExprRef::Host(2) },
        ValueWithPlaceholder { placeholder: "0".to_string(), value: ExprRef::Host(3) },
        ValueWithPlaceholder { placeholder: "b".to_string(), value: ExprRef::Host(4) },
    ];
    let once = dedup_values(v);
    assert_eq!(pairs(&once), vec![key("a", 0), key("0", 1), key("b", 4)]);
    let expected = pairs(&once);
    assert_eq!(pairs(&dedup_values(once)), expected);
    assert!(dedup_values(vec![]).is_empty());
}

#[test]
fn decimal_rendering() {
    for (n, s) in [(0usize, "0"), (7, "7"), (10, "10"), (1234, "1234"), (usize::MAX, "18446744073709551615")] {
        let mut out = "x".to_string();
        write_decimal(n, &mut out);
        assert_eq!(out, format!("x{}", s));
    }
}

#[test]
fn template_positional_index_counts_unnamed_only() {
    let t = tpl(&["", " ", " ", " ", ""], vec![ident("a", 0), other(1), ident("b", 2), other(3)]);
    let (msg, values) = transform_tpl_to_msg_and_values(&t);
    assert_eq!(msg, "{a} {0} {b} {1}");
    assert_eq!(pairs(&values), vec![key("a", 0), key("0", 1), key("b", 2), key("1", 3)]);
}

#[test]
fn builder_tag_indices_ignore_values_between_tags() {
    let a = vec![
        MsgToken::TagOpening(5), MsgToken::Value(other(0)), MsgToken::TagClosing,
        MsgToken::String("x".to_string()), MsgToken::TagOpening(6), MsgToken::TagClosing,
    ];
    let b = vec![
        MsgToken::Value(other(0)), MsgToken::TagOpening(5), MsgToken::TagClosing,
        MsgToken::TagOpening(6), MsgToken::String("x".to_string()), MsgToken::TagClosing,
    ];
    let ba = MessageBuilder::new(&a);
    let bb = MessageBuilder::new(&b);
    assert_eq!(ba.components, vec![5, 6]);
    assert_eq!(bb.components, vec![5, 6]);
    assert_eq!(ba.message, "<0>{0}</0>x<1/>");
    assert_eq!(bb.message, "{0}<0/><1>x</1>");
    assert_eq!(pairs(&ba.values_indexed), vec![key("0", 0)]);
}
