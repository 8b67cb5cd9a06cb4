use houndlens::python;
use houndlens::rustlang::{parse_type_str, split_generic_args, RustParser};
use houndlens::types::{PrimitiveType, ResolvedType, TypeRef};
use houndlens::typescript;

#[test]
fn test_parse_imports() {
    let src = br#"
from flask import Flask, request
import os
from typing import *
"#;
    let imports = python::extract_imports(src).unwrap();
    assert_eq!(imports.len(), 3);
    assert_eq!(imports[0].source_module, "flask");
    assert_eq!(imports[0].symbols, vec!["Flask", "request"]);
    assert_eq!(imports[1].source_module, "os");
    assert!(imports[2].is_wildcard);
}

#[test]
fn test_py_type_parsing() {
    assert_eq!(
        python::parse_py_type("str"),
        TypeRef::Resolved(ResolvedType::Primitive(PrimitiveType::String))
    );
    assert_eq!(
        python::parse_py_type("int"),
        TypeRef::Resolved(ResolvedType::Primitive(PrimitiveType::Int64))
    );

    match python::parse_py_type("list[str]") {
        TypeRef::Resolved(ResolvedType::Array(_)) => {}
        other => panic!("Expected Array, got {:?}", other),
    }

    match python::parse_py_type("str | None") {
        TypeRef::Resolved(ResolvedType::Optional(_)) => {}
        other => panic!("Expected Optional, got {:?}", other),
    }

    match python::parse_py_type("dict[str, int]") {
        TypeRef::Resolved(ResolvedType::MapType { .. }) => {}
        other => panic!("Expected Map, got {:?}", other),
    }
}

#[test]
fn test_parse_type_str() {
    assert_eq!(
        parse_type_str("i32"),
        TypeRef::Resolved(ResolvedType::Primitive(PrimitiveType::Int32))
    );
    assert_eq!(parse_type_str("()"), TypeRef::Resolved(ResolvedType::Unit));

    match parse_type_str("Option<String>") {
        TypeRef::Resolved(ResolvedType::Optional(_)) => {}
        other => panic!("Expected Optional, got {:?}", other),
    }

    match parse_type_str("Vec<u8>") {
        TypeRef::Resolved(ResolvedType::Array(_)) => {}
        other => panic!("Expected Array, got {:?}", other),
    }
}

#[test]
fn test_extract_imports() {
    let source = br#"
use std::collections::HashMap;
use anyhow::Result;
use crate::ir::*;
"#;

    let parser = RustParser::new();
    let imports = parser.extract_imports(source).unwrap();

    assert_eq!(imports.len(), 3);
    assert_eq!(imports[0].source_module, "std::collections");
    assert_eq!(imports[0].symbols, vec!["HashMap"]);
    assert!(!imports[0].is_wildcard);

    assert_eq!(imports[2].source_module, "crate::ir");
    assert!(imports[2].is_wildcard);
}

#[test]
fn parser_test_parse_imports() {
    let src = br#"
import { useState, useEffect } from "react";
import express from "express";
import * as fs from "fs";
"#;
    let imports = typescript::extract_imports(src).unwrap();
    assert_eq!(imports.len(), 3);
    assert_eq!(imports[0].source_module, "react");
    assert_eq!(imports[0].symbols, vec!["useState", "useEffect"]);
    assert_eq!(imports[1].source_module, "express");
    assert!(imports[2].is_wildcard);
}

#[test]
fn test_ts_type_parsing() {
    assert_eq!(
        typescript::parse_ts_type("string"),
        TypeRef::Resolved(ResolvedType::Primitive(PrimitiveType::String))
    );
    assert_eq!(
        typescript::parse_ts_type("number"),
        TypeRef::Resolved(ResolvedType::Primitive(PrimitiveType::Float64))
    );

    match typescript::parse_ts_type("string[]") {
        TypeRef::Resolved(ResolvedType::Array(_)) => {}
        other => panic!("Expected Array, got {:?}", other),
    }

    match typescript::parse_ts_type("string | null") {
        TypeRef::Resolved(ResolvedType::Optional(_)) => {}
        other => panic!("Expected Optional, got {:?}", other),
    }
}

#[test]
fn nested_generic_types_parse_exactly() {
    assert_eq!(
        parse_type_str("Result<Vec<u8>, String>"),
        TypeRef::Resolved(ResolvedType::Result {
            ok: Box::new(TypeRef::Resolved(ResolvedType::Array(Box::new(TypeRef::Resolved(
                ResolvedType::Primitive(PrimitiveType::Uint8)
            ))))),
            err: Box::new(TypeRef::Resolved(ResolvedType::Primitive(PrimitiveType::String))),
        })
    );
    assert_eq!(parse_type_str("  Foo "), TypeRef::Unresolved("Foo".to_string()));
    assert_eq!(
        split_generic_args("HashMap<K, V>, E"),
        Some(("HashMap<K, V>".to_string(), "E".to_string()))
    );
    assert_eq!(split_generic_args("A"), None);
}

#[test]
fn python_unions_and_tuples() {
    assert_eq!(
        python::parse_py_type("int | str"),
        TypeRef::Resolved(ResolvedType::Union(vec![
            TypeRef::Resolved(ResolvedType::Primitive(PrimitiveType::Int64)),
            TypeRef::Resolved(ResolvedType::Primitive(PrimitiveType::String)),
        ]))
    );
    assert_eq!(
        python::parse_py_type("tuple[int, bytes]"),
        TypeRef::Resolved(ResolvedType::Tuple(vec![
            TypeRef::Resolved(ResolvedType::Primitive(PrimitiveType::Int64)),
            TypeRef::Resolved(ResolvedType::Primitive(PrimitiveType::Bytes)),
        ]))
    );
    assert_eq!(python::parse_py_type("Any"), TypeRef::Unknown);
    assert_eq!(python::strip_generic("list[int]", "list"), Some("int".to_string()));
    assert_eq!(python::split_generic("dict[a, b], c"), Some(("dict[a, b]".to_string(), "c".to_string())));
}

#[test]
fn typescript_promises_unwrap() {
    assert_eq!(
        typescript::parse_ts_type(": Promise<boolean>"),
        TypeRef::Resolved(ResolvedType::Primitive(PrimitiveType::Bool))
    );
    assert_eq!(
        typescript::parse_ts_type("Map<string, number>"),
        TypeRef::Resolved(ResolvedType::MapType {
            key: Box::new(TypeRef::Resolved(ResolvedType::Primitive(PrimitiveType::String))),
            value: Box::new(TypeRef::Resolved(ResolvedType::Primitive(PrimitiveType::Float64))),
        })
    );
}

#[test]
fn import_statements_from_text() {
    let i = python::parse_import_text("from a.b import c as d, e").unwrap();
    assert_eq!(i.source_module, "a.b");
    assert_eq!(i.symbols, vec!["c", "e"]);
    let j = python::parse_import_text("import numpy as np").unwrap();
    assert_eq!(j.source_module, "numpy");
    assert_eq!(j.symbols, vec!["numpy"]);
    assert!(python::parse_import_text("x = 1").is_none());
    let t = typescript::parse_import_text("import { a as b, c } from './m';").unwrap();
    assert_eq!(t.source_module, "./m");
    assert_eq!(t.symbols, vec!["a", "c"]);
    let u = houndlens::rustlang::parse_use_text("use foo::{Bar, Baz};").unwrap();
    assert_eq!(u.source_module, "foo");
    assert_eq!(u.symbols, vec!["Bar", "Baz"]);
}
