use quizfold_parser::typings::{
    replace_flattened_wrapper_type_aliases, try_replace_flattened_wrapper_type_aliases,
};

#[test]
fn interface_extending_a_flattened_type_becomes_an_intersection() {
    let generated = "export interface Foo extends Bar {\n  a: string;\n}\nexport type X = 1;\n";
    assert_eq!(
        replace_flattened_wrapper_type_aliases(generated.to_string()),
        "export type Foo = Bar & {\n  a: string;\n};\nexport type X = 1;\n"
    );
}

#[test]
fn nested_braces_stay_inside_the_rewritten_block() {
    let generated = "export interface A extends B {\n  c: { d: number };\n}\nrest\n";
    assert_eq!(
        replace_flattened_wrapper_type_aliases(generated.to_string()),
        "export type A = B & {\n  c: { d: number };\n};\nrest\n"
    );
}

#[test]
fn other_lines_are_kept_and_line_ends_normalized() {
    assert_eq!(
        replace_flattened_wrapper_type_aliases("export interface Plain {\r\nx\r\n}".to_string()),
        "export interface Plain {\nx\n}\n"
    );
    assert_eq!(replace_flattened_wrapper_type_aliases(String::new()), "");
}

#[test]
fn the_checking_rewrite_agrees_or_reports_a_stray_brace() {
    let generated = "export interface Foo extends Bar {\n  a: string;\n}\nexport type X = 1;\n";
    assert_eq!(
        try_replace_flattened_wrapper_type_aliases(generated.to_string()),
        Some(replace_flattened_wrapper_type_aliases(generated.to_string()))
    );
    let unbalanced = "export interface Foo extends Bar {\n}}\n";
    assert_eq!(try_replace_flattened_wrapper_type_aliases(unbalanced.to_string()), None);
    assert_eq!(try_replace_flattened_wrapper_type_aliases("}}\n".to_string()), Some("}}\n".to_string()));
}
