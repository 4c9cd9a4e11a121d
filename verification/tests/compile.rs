use template_core::compile_template;
use template_core::compile_template_sync;
use template_core::is_void_element;

#[test]
fn empty_input_compiles_to_empty_root() {
    assert_eq!(compile_template_sync(""), "() => (\"\")");
}

#[test]
fn whitespace_only_compiles_to_empty_root() {
    assert_eq!(compile_template_sync("  \n\t   "), "() => (\"\")");
}

#[test]
fn compile_is_deterministic() {
    let src = "<div class=\"a\"><span>hi ${n}</span><br></div>";
    let first = compile_template_sync(src);
    let second = compile_template_sync(src);
    assert_eq!(first, second);
    assert_eq!(compile_template(src), first);
}

#[test]
fn void_element_forced_self_closing() {
    let plain = compile_template_sync("<img src=\"x\">");
    let slashed = compile_template_sync("<img src=\"x\" />");
    assert_eq!(plain, slashed);
    assert_eq!(plain, "() => element(\"img\", {\"src\": \"x\"})");
}

#[test]
fn multi_root_wrapped_in_fragment() {
    assert_eq!(
        compile_template_sync("<a/><b/>"),
        "() => element(Fragment, {}, [element(\"a\", {}), element(\"b\", {})])"
    );
}

#[test]
fn event_binding_syntaxes_agree() {
    let colon = compile_template_sync("<button on:click={doIt}>");
    let at = compile_template_sync("<button @click={doIt}>");
    assert_eq!(colon, at);
    assert_eq!(colon, "() => element(\"button\", {\"onClick\": doIt})");
}

#[test]
fn interpolated_text_stays_live() {
    assert_eq!(compile_template_sync("Count: ${n}"), "() => `Count: ${n}`");
}

#[test]
fn plain_text_is_quoted_literal() {
    assert_eq!(compile_template_sync("Count: 5"), "() => \"Count: 5\"");
}

#[test]
fn backtick_in_interpolated_text_is_escaped() {
    assert_eq!(compile_template_sync("`${x}"), "() => `\\`${x}`");
}

#[test]
fn escaping_round_trip() {
    let out = compile_template_sync("a\"b\\c\nd");
    assert_eq!(out, "() => \"a\\\"b\\\\c\\nd\"");
    let body: Vec<char> = out.chars().skip(7).take(out.chars().count() - 8).collect();
    let mut read: Vec<char> = Vec::new();
    let mut k = 0;
    while k < body.len() {
        if body[k] == '\\' {
            let e = body[k + 1];
            read.push(match e {
                'n' => '\n',
                'r' => '\r',
                't' => '\t',
                other => other,
            });
            k += 2;
        } else {
            read.push(body[k]);
            k += 1;
        }
    }
    let original: Vec<char> = "a\"b\\c\nd".chars().collect();
    assert_eq!(read, original);
}

#[test]
fn tab_and_carriage_return_escaped() {
    assert_eq!(compile_template_sync("a\tb\rc"), "() => \"a\\tb\\rc\"");
}

#[test]
fn single_child_is_bare_expression() {
    assert_eq!(
        compile_template_sync("<div><span>hi</span></div>"),
        "() => element(\"div\", {}, element(\"span\", {}, \"hi\"))"
    );
}

#[test]
fn structural_nesting_depth_matches_source() {
    let out = compile_template_sync("<div><span><b>x</b></span></div>");
    assert_eq!(out, "() => element(\"div\", {}, element(\"span\", {}, element(\"b\", {}, \"x\")))");
    assert_eq!(out.matches("element(").count(), 3);
}

#[test]
fn several_children_are_bracketed() {
    assert_eq!(
        compile_template_sync("<ul><li>a</li><li>b</li></ul>"),
        "() => element(\"ul\", {}, [element(\"li\", {}, \"a\"), element(\"li\", {}, \"b\")])"
    );
}

#[test]
fn bare_attribute_becomes_true() {
    assert_eq!(
        compile_template_sync("<input disabled>"),
        "() => element(\"input\", {\"disabled\": true})"
    );
}

#[test]
fn unquoted_attribute_value() {
    assert_eq!(
        compile_template_sync("<a href=foo>x</a>"),
        "() => element(\"a\", {\"href\": \"foo\"}, \"x\")"
    );
}

#[test]
fn single_quoted_attribute_value() {
    assert_eq!(
        compile_template_sync("<a href='y'/>"),
        "() => element(\"a\", {\"href\": \"y\"})"
    );
}

#[test]
fn expression_attribute_is_trimmed_raw() {
    assert_eq!(
        compile_template_sync("<a data={ x + 1 }/>"),
        "() => element(\"a\", {\"data\": x + 1})"
    );
}

#[test]
fn duplicate_attributes_kept_in_order() {
    assert_eq!(
        compile_template_sync("<a x=\"1\" x=\"2\"/>"),
        "() => element(\"a\", {\"x\": \"1\", \"x\": \"2\"})"
    );
}

#[test]
fn whitespace_between_roots_is_dropped() {
    assert_eq!(
        compile_template_sync("<a/>   <b/>"),
        "() => element(Fragment, {}, [element(\"a\", {}), element(\"b\", {})])"
    );
}

#[test]
fn lone_angle_becomes_text() {
    assert_eq!(compile_template_sync("<"), "() => \"<\"");
}

#[test]
fn malformed_open_degrades_to_text() {
    assert_eq!(compile_template_sync("< foo"), "() => \"< foo\"");
}

#[test]
fn failed_element_keeps_angle_in_text() {
    assert_eq!(compile_template_sync("<%a"), "() => \"<%a\"");
}

#[test]
fn text_then_malformed_open() {
    assert_eq!(
        compile_template_sync("a < b"),
        "() => element(Fragment, {}, [\"a \", \"< b\"])"
    );
}

#[test]
fn leading_whitespace_kept_in_text() {
    assert_eq!(compile_template_sync("  hi"), "() => \"  hi\"");
}

#[test]
fn unclosed_tag_keeps_children() {
    assert_eq!(
        compile_template_sync("<div>hi"),
        "() => element(\"div\", {}, \"hi\")"
    );
}

#[test]
fn mismatched_closer_accepted() {
    assert_eq!(
        compile_template_sync("<div>hi</span>"),
        "() => element(\"div\", {}, \"hi\")"
    );
}

#[test]
fn unterminated_quote_degrades_to_text() {
    assert_eq!(compile_template_sync("<a href=\"x"), "() => \"<a href=\\\"x\"");
}

#[test]
fn first_brace_ends_expression() {
    assert_eq!(
        compile_template_sync("<a data={{x:1}}/>"),
        "() => element(\"a\", {\"data\": {x:1, \"}\": true})"
    );
}

#[test]
fn void_element_table() {
    let br: Vec<char> = "br".chars().collect();
    let img: Vec<char> = "img".chars().collect();
    let div: Vec<char> = "div".chars().collect();
    assert!(is_void_element(&br));
    assert!(is_void_element(&img));
    assert!(!is_void_element(&div));
}

#[test]
fn void_element_with_closer_text_becomes_sibling() {
    assert_eq!(
        compile_template_sync("<br>text"),
        "() => element(Fragment, {}, [element(\"br\", {}), \"text\"])"
    );
}

#[test]
fn non_ascii_text_passes_through() {
    assert_eq!(
        compile_template_sync("<p>héllo</p>"),
        "() => element(\"p\", {}, \"héllo\")"
    );
}
