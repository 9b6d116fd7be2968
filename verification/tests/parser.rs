use codemap::parser::{
    analyze_file, byte_offset_to_line, byte_offset_to_line_from_lines, extract_signatures, truncate,
};
use codemap::types::{ExportKind, ImportKind};

// --- analyze_file: imports ---

#[test]
fn named_import() {
    let src = r#"import { foo, bar } from './utils';"#;
    let a = analyze_file("test.ts", src).unwrap();
    assert_eq!(a.imports.len(), 2);
    assert_eq!(a.imports[0].name, "foo");
    assert_eq!(a.imports[0].kind, ImportKind::Named);
    assert_eq!(a.imports[1].name, "bar");
    assert_eq!(a.imports[1].source, "./utils");
}

#[test]
fn default_import() {
    let src = r#"import React from 'react';"#;
    let a = analyze_file("test.tsx", src).unwrap();
    assert_eq!(a.imports.len(), 1);
    assert_eq!(a.imports[0].name, "React");
    assert_eq!(a.imports[0].kind, ImportKind::Default);
}

#[test]
fn namespace_import() {
    let src = r#"import * as fs from 'fs';"#;
    let a = analyze_file("test.ts", src).unwrap();
    assert_eq!(a.imports.len(), 1);
    assert_eq!(a.imports[0].name, "fs");
    assert_eq!(a.imports[0].kind, ImportKind::Namespace);
}

// --- analyze_file: exports ---

#[test]
fn export_function() {
    let src = r#"export function doThing() { return 1; }"#;
    let a = analyze_file("test.ts", src).unwrap();
    assert_eq!(a.exports.len(), 1);
    assert_eq!(a.exports[0].name, "doThing");
    assert_eq!(a.exports[0].kind, ExportKind::Function);
}

#[test]
fn export_variable() {
    let src = r#"export const x = 1;"#;
    let a = analyze_file("test.ts", src).unwrap();
    assert_eq!(a.exports.len(), 1);
    assert_eq!(a.exports[0].name, "x");
    assert_eq!(a.exports[0].kind, ExportKind::Variable);
}

#[test]
fn export_class() {
    let src = r#"export class Foo { bar() {} }"#;
    let a = analyze_file("test.ts", src).unwrap();
    assert_eq!(a.exports.len(), 1);
    assert_eq!(a.exports[0].name, "Foo");
    assert_eq!(a.exports[0].kind, ExportKind::Class);
}

#[test]
fn export_interface() {
    let src = r#"export interface Props { name: string; }"#;
    let a = analyze_file("test.ts", src).unwrap();
    assert_eq!(a.exports.len(), 1);
    assert_eq!(a.exports[0].name, "Props");
    assert_eq!(a.exports[0].kind, ExportKind::Interface);
}

#[test]
fn export_type_alias() {
    let src = r#"export type ID = string;"#;
    let a = analyze_file("test.ts", src).unwrap();
    assert_eq!(a.exports.len(), 1);
    assert_eq!(a.exports[0].name, "ID");
    assert_eq!(a.exports[0].kind, ExportKind::TypeAlias);
}

#[test]
fn export_enum() {
    let src = r#"export enum Color { Red, Green, Blue }"#;
    let a = analyze_file("test.ts", src).unwrap();
    assert_eq!(a.exports.len(), 1);
    assert_eq!(a.exports[0].name, "Color");
    assert_eq!(a.exports[0].kind, ExportKind::Enum);
}

#[test]
fn export_default() {
    let src = r#"export default function() { return 1; }"#;
    let a = analyze_file("test.ts", src).unwrap();
    assert_eq!(a.exports.len(), 1);
    assert_eq!(a.exports[0].name, "default");
    assert_eq!(a.exports[0].kind, ExportKind::Default);
}

// --- analyze_file: re-exports ---

#[test]
fn reexport_named() {
    let src = r#"export { foo } from './bar';"#;
    let a = analyze_file("test.ts", src).unwrap();
    assert_eq!(a.reexports.len(), 1);
    assert_eq!(a.reexports[0].source, "./bar");
    assert_eq!(a.reexports[0].local, "foo");
    assert_eq!(a.reexports[0].exported, "foo");
}

#[test]
fn reexport_star() {
    let src = r#"export * from './bar';"#;
    let a = analyze_file("test.ts", src).unwrap();
    assert_eq!(a.reexports.len(), 1);
    assert_eq!(a.reexports[0].local, "*");
    assert_eq!(a.reexports[0].exported, "*");
}

#[test]
fn reexport_star_as() {
    let src = r#"export * as utils from './bar';"#;
    let a = analyze_file("test.ts", src).unwrap();
    assert_eq!(a.reexports.len(), 1);
    assert_eq!(a.reexports[0].local, "*");
    assert_eq!(a.reexports[0].exported, "utils");
}

// --- analyze_file: edge cases ---

#[test]
fn empty_file() {
    let a = analyze_file("test.ts", "").unwrap();
    assert!(a.imports.is_empty());
    assert!(a.exports.is_empty());
    assert!(a.symbols.is_empty());
}

#[test]
fn no_imports_or_exports() {
    let src = r#"const x = 1; function foo() {}"#;
    let a = analyze_file("test.ts", src).unwrap();
    assert!(a.imports.is_empty());
    assert!(a.exports.is_empty());
    // Top-level symbols should still be captured
    assert!(!a.symbols.is_empty());
}

#[test]
fn unsupported_file_type() {
    let result = analyze_file("test.py", "x = 1");
    assert!(result.is_err());
}

#[test]
fn combined_imports_and_exports() {
    let src = r#"
import { useState } from 'react';
import type { FC } from 'react';
export const App: FC = () => null;
export function helper() {}
"#;
    let a = analyze_file("test.tsx", src).unwrap();
    assert_eq!(a.imports.len(), 2);
    assert_eq!(a.exports.len(), 2);
}

#[test]
fn symbol_is_exported_flag() {
    let src = r#"
export function exported() {}
function internal() {}
"#;
    let a = analyze_file("test.ts", src).unwrap();
    let exported_sym = a.symbols.iter().find(|s| s.name == "exported");
    let internal_sym = a.symbols.iter().find(|s| s.name == "internal");
    assert!(exported_sym.is_some_and(|s| s.is_exported));
    assert!(internal_sym.is_some_and(|s| !s.is_exported));
}

// --- extract_signatures ---

#[test]
fn signature_export_function() {
    let src = r#"export function greet(name: string): string { return name; }"#;
    let sigs = extract_signatures("test.ts", src);
    assert_eq!(sigs.len(), 1);
    assert!(sigs[0].contains("export"));
    assert!(sigs[0].contains("greet"));
    // Should not include function body
    assert!(!sigs[0].contains("return"));
}

#[test]
fn signature_export_class() {
    let src = r#"export class Foo { bar() {} }"#;
    let sigs = extract_signatures("test.ts", src);
    assert_eq!(sigs.len(), 1);
    assert_eq!(sigs[0], "export class Foo");
}

#[test]
fn signature_export_interface() {
    let src = r#"export interface Props { name: string; }"#;
    let sigs = extract_signatures("test.ts", src);
    assert_eq!(sigs.len(), 1);
    assert_eq!(sigs[0], "export interface Props");
}

#[test]
fn signature_export_enum() {
    let src = r#"export enum Color { Red, Green }"#;
    let sigs = extract_signatures("test.ts", src);
    assert_eq!(sigs.len(), 1);
    assert_eq!(sigs[0], "export enum Color");
}

#[test]
fn signature_star_reexport() {
    let src = r#"export * from './utils';"#;
    let sigs = extract_signatures("test.ts", src);
    assert_eq!(sigs.len(), 1);
    assert_eq!(sigs[0], r#"export * from "./utils""#);
}

#[test]
fn signature_export_default_class() {
    let src = r#"export default class Foo {}"#;
    let sigs = extract_signatures("test.ts", src);
    assert_eq!(sigs.len(), 1);
    assert_eq!(sigs[0], "export default class Foo");
}

#[test]
fn signature_unsupported_extension() {
    let sigs = extract_signatures("test.py", "x = 1");
    assert!(sigs.is_empty());
}

#[test]
fn signature_empty_file() {
    let sigs = extract_signatures("test.ts", "");
    assert!(sigs.is_empty());
}

// --- truncate ---

#[test]
fn truncate_short_string() {
    assert_eq!(truncate("hello", 10), "hello");
}

#[test]
fn truncate_at_limit() {
    assert_eq!(truncate("hello", 5), "hello");
}

#[test]
fn truncate_long_string() {
    assert_eq!(truncate("hello world", 5), "hello");
}

#[test]
fn truncate_multibyte_utf8() {
    // "héllo" — é is 2 bytes in UTF-8
    let s = "héllo";
    let result = truncate(s, 3);
    // Should not panic, should stop at char boundary
    assert!(result.len() <= 3);
    assert!(result.is_char_boundary(result.len()));
}

// --- byte_offset_to_line ---

#[test]
fn byte_offset_first_line() {
    assert_eq!(byte_offset_to_line("hello\nworld\n", 3), 0);
}

#[test]
fn byte_offset_second_line() {
    assert_eq!(byte_offset_to_line("hello\nworld\n", 8), 1);
}

#[test]
fn byte_offset_beyond_source() {
    // Should clamp to source length, not panic
    assert_eq!(byte_offset_to_line("hi\n", 999), 1);
}

// --- byte_offset_to_line_from_lines ---

#[test]
fn byte_offset_from_lines_basic() {
    let lines: Vec<String> = "hello\nworld\nfoo".lines().map(|l| l.to_string()).collect();
    assert_eq!(byte_offset_to_line_from_lines(&lines, 0), 0);
    assert_eq!(byte_offset_to_line_from_lines(&lines, 6), 1);
    assert_eq!(byte_offset_to_line_from_lines(&lines, 12), 2);
}

// --- errors and edge cases ---

#[test]
fn unsupported_file_type_in_words() {
    let error = analyze_file("test.py", "x = 1").unwrap_err();
    assert!(error.message().contains("test.py"));
}

#[test]
fn unreadable_source_is_an_error() {
    assert!(analyze_file("test.ts", "import {").is_err());
}

#[test]
fn references_are_counted() {
    let a = analyze_file("test.ts", "export const a = 1;\nconst b = a + a;\n").unwrap();
    let a_sym = a.symbols.iter().find(|s| s.name == "a").unwrap();
    assert_eq!(a_sym.reference_count, 2);
    assert!(a_sym.is_exported);
}

#[test]
fn exported_function_keeps_its_head() {
    let sigs = extract_signatures(
        "test.ts",
        "export function greet(name: string): string {\n  return name;\n}\n",
    );
    assert_eq!(sigs, vec!["export function greet(name: string): string"]);
}

#[test]
fn truncation_keeps_whole_characters() {
    assert_eq!(truncate("h\u{e9}llo", 2), "h");
    assert_eq!(truncate("h\u{e9}llo", 3), "h\u{e9}");
    assert_eq!(truncate("", 0), "");
}

#[test]
fn signatures_are_short() {
    let params: Vec<String> = (0..40).map(|i| format!("parameter{i}: string")).collect();
    let src = format!(
        "export function long({p}): void {{}}\nexport type Long = {{ {p} }};\nexport const x = '{p}';\n",
        p = params.join(", ")
    );
    let sigs = extract_signatures("test.ts", &src);
    assert_eq!(sigs.len(), 3);
    assert!(sigs.iter().all(|s| s.chars().count() <= 100));
    assert!(sigs[0].starts_with("export function long(parameter0: string"));
}

#[test]
fn exported_type_alias_keeps_its_mark() {
    let sigs = extract_signatures("test.ts", "export type ID = string;\n");
    assert_eq!(sigs.len(), 1);
    assert!(sigs[0].starts_with("export type ID"));
}

#[test]
fn carriage_returns_do_not_shift_lines() {
    let src = "const a = 1;\r\nconst b = 2;\r\n\r\nexport function greet(): void {\r\n}\r\n";
    let sigs = extract_signatures("test.ts", src);
    assert_eq!(sigs.last().unwrap(), "export function greet(): void");
}

#[test]
fn only_symbols_of_the_file_itself_are_kept() {
    let src = "export function outer() { const inner = 1; return inner; }\nlet top = outer;\n";
    let a = analyze_file("test.ts", src).unwrap();
    let names: Vec<&str> = a.symbols.iter().map(|s| s.name.as_str()).collect();
    assert_eq!(names, vec!["outer", "top"]);
}

#[test]
fn imports_of_types_are_marked() {
    let src = "import type { T } from './t';\nimport { type U, v } from './u';\nimport w from './w';\n";
    let a = analyze_file("test.ts", src).unwrap();
    let marks: Vec<bool> = a.imports.iter().map(|i| i.type_only).collect();
    assert_eq!(marks, vec![true, true, false, false]);
}

#[test]
fn errors_of_the_parser_are_counted() {
    assert_eq!(analyze_file("test.ts", "const a = 1;").unwrap().parse_errors, 0);
    assert!(analyze_file("test.ts", "function f() { let a; }\nreturn 1;\n").unwrap().parse_errors > 0);
}

#[test]
fn lists_of_exports_are_exports() {
    let a = analyze_file("test.ts", "const a = 1; export { a };").unwrap();
    assert_eq!(a.exports.len(), 1);
    assert_eq!((a.exports[0].name.as_str(), a.exports[0].kind), ("a", ExportKind::Variable));
    assert!(a.symbols.iter().any(|s| s.name == "a" && s.is_exported));
    assert!(a.reexports.is_empty());
}

#[test]
fn lists_of_exports_take_kinds_from_declarations() {
    let src = "import { i } from './i';\nexport { run as start, i, Box, Shape as default };\n\
               function run() {}\nclass Box {}\ninterface Shape {}\nconst hidden = 1;\n\
               export type { Shape };\n";
    let a = analyze_file("test.ts", src).unwrap();
    let exports: Vec<(&str, ExportKind)> =
        a.exports.iter().map(|e| (e.name.as_str(), e.kind)).collect();
    assert_eq!(
        exports,
        vec![
            ("start", ExportKind::Function),
            ("i", ExportKind::Variable),
            ("Box", ExportKind::Class),
            ("default", ExportKind::Interface),
            ("Shape", ExportKind::Interface),
        ]
    );
    let exported = |name: &str| a.symbols.iter().any(|s| s.name == name && s.is_exported);
    assert!(exported("run") && exported("i") && exported("Box") && exported("Shape"));
    assert!(!exported("hidden"));
}

#[test]
fn a_list_with_a_source_exports_no_local_name() {
    let src = "const foo = 1;\nexport { foo } from './bar';\n";
    let a = analyze_file("test.ts", src).unwrap();
    assert!(a.exports.is_empty());
    assert!(a.symbols.iter().all(|s| !s.is_exported));
}
