use wasm_server_runner::snippets::{get_snippet_source, ModuleMap, SnippetError, SnippetGroups};

fn foo_groups() -> SnippetGroups {
    let mut groups = SnippetGroups::new();
    groups.insert(
        String::from("foo"),
        vec![
            String::from("a"),
            String::from("b"),
            String::from("c"),
            String::from("d"),
        ],
    );
    groups
}

#[test]
fn resolve_inline_index() {
    let modules = ModuleMap::new();
    let groups = foo_groups();
    let r = get_snippet_source("foo/inline3.js", &modules, &groups);
    assert_eq!(r, Ok(String::from("d")));
}

#[test]
fn resolve_index_out_of_bounds() {
    let modules = ModuleMap::new();
    let groups = foo_groups();
    let r = get_snippet_source("foo/inline10.js", &modules, &groups);
    assert_eq!(r, Err(SnippetError::IndexOutOfBounds));
}

#[test]
fn resolve_invalid_path_without_slash() {
    let modules = ModuleMap::new();
    let groups = foo_groups();
    let r = get_snippet_source("unknownpath.js", &modules, &groups);
    assert_eq!(r, Err(SnippetError::InvalidPath));
}

#[test]
fn resolve_named_module_precedence() {
    let mut modules = ModuleMap::new();
    modules.insert(String::from("foo/inline3.js"), String::from("named body"));
    let groups = foo_groups();
    let r = get_snippet_source("foo/inline3.js", &modules, &groups);
    assert_eq!(r, Ok(String::from("named body")));
}

#[test]
fn resolve_first_inline_fragment() {
    let modules = ModuleMap::new();
    let groups = foo_groups();
    let r = get_snippet_source("foo/inline0.js", &modules, &groups);
    assert_eq!(r, Ok(String::from("a")));
}

#[test]
fn resolve_invalid_name_prefix() {
    let modules = ModuleMap::new();
    let groups = foo_groups();
    let r = get_snippet_source("foo/other3.js", &modules, &groups);
    assert_eq!(r, Err(SnippetError::InvalidName));
}

#[test]
fn resolve_invalid_name_suffix() {
    let modules = ModuleMap::new();
    let groups = foo_groups();
    let r = get_snippet_source("foo/inline3.txt", &modules, &groups);
    assert_eq!(r, Err(SnippetError::InvalidName));
}

#[test]
fn resolve_invalid_index_empty() {
    let modules = ModuleMap::new();
    let groups = foo_groups();
    let r = get_snippet_source("foo/inline.js", &modules, &groups);
    assert_eq!(r, Err(SnippetError::InvalidIndex));
}

#[test]
fn resolve_invalid_index_nondigit() {
    let modules = ModuleMap::new();
    let groups = foo_groups();
    let r = get_snippet_source("foo/inline3x.js", &modules, &groups);
    assert_eq!(r, Err(SnippetError::InvalidIndex));
}

#[test]
fn resolve_invalid_index_plus_sign() {
    let modules = ModuleMap::new();
    let groups = foo_groups();
    let r = get_snippet_source("foo/inline+3.js", &modules, &groups);
    assert_eq!(r, Err(SnippetError::InvalidIndex));
}

#[test]
fn resolve_index_overflow() {
    let modules = ModuleMap::new();
    let groups = foo_groups();
    let r = get_snippet_source("foo/inline99999999999999999999999999.js", &modules, &groups);
    assert_eq!(r, Err(SnippetError::InvalidIndex));
}

#[test]
fn resolve_unknown_group() {
    let modules = ModuleMap::new();
    let groups = foo_groups();
    let r = get_snippet_source("bar/inline0.js", &modules, &groups);
    assert_eq!(r, Err(SnippetError::UnknownGroup));
}

#[test]
fn resolve_splits_on_first_slash() {
    let modules = ModuleMap::new();
    let mut groups = SnippetGroups::new();
    groups.insert(String::from("foo"), vec![String::from("a")]);
    // the file part "bar/inline0.js" holds a slash and so cannot match
    let r = get_snippet_source("foo/bar/inline0.js", &modules, &groups);
    assert_eq!(r, Err(SnippetError::InvalidName));
}

#[test]
fn module_map_get_and_duplicate_insert() {
    let mut modules = ModuleMap::new();
    modules.insert(String::from("m.js"), String::from("first"));
    modules.insert(String::from("m.js"), String::from("second"));
    assert_eq!(modules.get("m.js"), Some(String::from("first")));
    assert_eq!(modules.get("missing.js"), None);
}

#[test]
fn snippet_groups_len_and_fragments() {
    let groups = foo_groups();
    assert_eq!(groups.group_len("foo"), Some(4));
    assert_eq!(groups.group_len("bar"), None);
    assert_eq!(groups.fragment_at("foo", 1), Some(String::from("b")));
    assert_eq!(groups.fragment_at("foo", 4), None);
}

#[test]
fn snippet_error_messages() {
    assert_eq!(SnippetError::InvalidPath.message(), "invalid snippet path");
    assert_eq!(SnippetError::InvalidName.message(), "invalid snippet name in path");
    assert_eq!(SnippetError::InvalidIndex.message(), "invalid index");
    assert_eq!(SnippetError::UnknownGroup.message(), "invalid snippet name");
    assert_eq!(
        SnippetError::IndexOutOfBounds.message(),
        "snippet index out of bounds"
    );
}
