use aegisone_agent::report::template::Template;

#[test]
fn simple_substitution() {
    let t = Template::new("Hello {{name}}, score={{score}}.");
    let vars = vec![("name", "Alice".to_string()), ("score", "95".to_string())];
    let out = t.render(&vars, &[]);
    assert_eq!(out, "Hello Alice, score=95.");
}

#[test]
fn template_missing_placeholder_becomes_dash() {
    let t = Template::new("Value: {{missing}}");
    let out = t.render(&[], &[]);
    assert_eq!(out, "Value: —");
}

#[test]
fn list_block_expands_each_item() {
    let t = Template::new("Files:\n{{#files}}- {{item}}\n{{/files}}done");
    let lists = vec![("files", vec!["a.txt".to_string(), "b.txt".to_string()])];
    let out = t.render(&[], &lists);
    assert_eq!(out, "Files:\n- a.txt\n- b.txt\ndone");
}

#[test]
fn lists_expand_before_variables() {
    let t = Template::new("{{#xs}}[{{item}}:{{v}}]{{/xs}}");
    let lists = vec![("xs", vec!["1".to_string(), "2".to_string()])];
    let vars = vec![("v", "ok".to_string())];
    let out = t.render(&vars, &lists);
    assert_eq!(out, "[1:ok][2:ok]");
}

#[test]
fn unterminated_placeholder_is_kept() {
    let t = Template::new("a {{b");
    let out = t.render(&[], &[]);
    assert_eq!(out, "a {{b");
}

#[test]
fn rendered_report_template_has_no_placeholders_left() {
    let t = Template::incident_report();
    let vars = vec![("incident_id", "abc".to_string()), ("peak_level", "HIGH".to_string())];
    let out = t.render(&vars, &[]);
    assert!(out.contains("`abc`"));
    assert!(out.contains("**HIGH**"));
    assert!(!out.contains("{{"));
    assert!(out.contains("| Generated | — |"));
}

#[test]
fn plain_text_renders_to_itself() {
    let text = "No placeholders here: {single} braces, }} closers and a # sign.";
    let t = Template::new(text);
    let vars = vec![("single", "X".to_string())];
    let lists = vec![("items", vec!["a".to_string(), "b".to_string()])];
    assert_eq!(t.render(&vars, &lists), text);
    assert_eq!(Template::new("").render(&[], &[]), "");
}
