//! Code generation from S.DEF data models: a Python dataclass, a TypeScript
//! interface and class, or a Rust struct with its constructor.

pub mod contracts;

use vstd::prelude::*;
use crate::naming::{
    camel, pascal, python_type, python_type_name, rust_type, rust_type_name, snake, to_camel_case,
    to_pascal_case, to_snake_case, ts_type, ts_type_name, type_class, concat,
};
use crate::text::{push_str, string_views, join_seqs, join_strings};

verus! {

/// An attribute of a data model.
#[derive(Debug, Clone)]
pub struct DataAttribute {
    pub name: String,
    pub attr_type: String,
    pub description: Option<String>,
    pub required: bool,
    pub generated: bool,
    pub internal: bool,
}

/// A data model (entity) of an S.DEF document.
#[derive(Debug, Clone)]
pub struct DataModel {
    pub entity: String,
    pub description: Option<String>,
    pub attributes: Option<Vec<DataAttribute>>,
}

/// A generated source file.
#[derive(Debug, Clone)]
pub struct GeneratedCode {
    pub file_path: String,
    pub content: String,
    pub language: String,
}

/// The attributes of a model (none when absent).
pub open spec fn attrs_of(m: DataModel) -> Seq<DataAttribute> {
    match m.attributes {
        Some(v) => v@,
        None => Seq::empty(),
    }
}

/// `prefix + text + suffix` when the text is present, else nothing.
pub open spec fn opt_line(o: Option<String>, prefix: Seq<char>, suffix: Seq<char>) -> Seq<char> {
    match o {
        Some(t) => prefix + t@ + suffix,
        None => Seq::empty(),
    }
}

pub(crate) fn push_opt(s: &mut String, o: &Option<String>, prefix: &str, suffix: &str)
    ensures
        final(s)@ == old(s)@ + opt_line(*o, prefix@, suffix@),
{
    match o {
        Some(t) => {
            push_str(s, prefix);
            push_str(s, t.as_str());
            push_str(s, suffix);
        },
        None => {
            assert(old(s)@ + Seq::<char>::empty() =~= old(s)@);
        },
    }
}

// ---------------------------------------------------------------- Python

/// The Python field line of an attribute (its default and doc text placed
/// as the generator has always placed them).
pub open spec fn py_field_line(a: DataAttribute) -> Seq<char> {
    let default = if a.generated {
        "= field(default_factory=dict)"@
    } else if a.required {
        Seq::empty()
    } else {
        " = None"@
    };
    "    "@ + snake(a.name@) + default + ": "@ + python_type_name(type_class(a.attr_type@))
        + opt_line(a.description, ": "@, Seq::empty()) + "\n"@
}

/// The `to_dict` entry of an attribute.
pub open spec fn py_dict_line(a: DataAttribute) -> Seq<char> {
    "            '"@ + a.name@ + "': self."@ + snake(a.name@) + ",\n"@
}

/// The Python module for a data model: a dataclass with `from_dict` and
/// `to_dict`.
pub open spec fn python_model_text(m: DataModel) -> Seq<char> {
    let class_name = pascal(m.entity@);
    let attrs = attrs_of(m);
    "\"\"\"\n"@ + opt_line(m.description, Seq::empty(), "\n"@) + "\"\"\"\n\n"@
        + "from dataclasses import dataclass, field\n"@ + "from typing import Optional\n"@
        + "from datetime import datetime\n\n"@ + "@dataclass\nclass "@ + class_name + ":\n"@
        + concat(attrs.map_values(|a: DataAttribute| py_field_line(a)))
        + "\n    @classmethod\n"@ + "    def from_dict(cls, data: dict) -> '"@ + class_name + "':\n"@
        + "        \"\"\"Create instance from dictionary.\"\"\"\n"@ + "        return cls(**data)\n"@
        + "\n    def to_dict(self) -> dict:\n"@ + "        \"\"\"Convert instance to dictionary.\"\"\"\n"@
        + "        return {\n"@ + concat(attrs.map_values(|a: DataAttribute| py_dict_line(a))) + "        }\n"@
}

/// Python code generator.
#[derive(Debug, Clone, Copy)]
pub struct PythonGenerator;

fn py_field(a: &DataAttribute) -> (line: String)
    ensures
        line@ == py_field_line(*a),
{
    let mut line = "    ".to_owned();
    let name = to_snake_case(a.name.as_str());
    push_str(&mut line, name.as_str());
    if a.generated {
        push_str(&mut line, "= field(default_factory=dict)");
    } else if a.required {
    } else {
        push_str(&mut line, " = None");
    }
    push_str(&mut line, ": ");
    let ty = python_type(a.attr_type.as_str(), a.required);
    push_str(&mut line, ty.as_str());
    push_opt(&mut line, &a.description, ": ", "");
    push_str(&mut line, "\n");
    proof {
        reveal_strlit("");
        assert(""@ =~= Seq::<char>::empty());
    }
    line
}

fn py_dict(a: &DataAttribute) -> (line: String)
    ensures
        line@ == py_dict_line(*a),
{
    let mut line = "            '".to_owned();
    push_str(&mut line, a.name.as_str());
    push_str(&mut line, "': self.");
    let name = to_snake_case(a.name.as_str());
    push_str(&mut line, name.as_str());
    push_str(&mut line, ",\n");
    line
}

impl PythonGenerator {
    /// The dataclass module for a data model, in `<entity>.py`.
    pub fn generate_data_model(&self, model: &DataModel) -> (files: Vec<GeneratedCode>)
        ensures
            files@.len() == 1,
            files@[0].file_path@ == snake(model.entity@) + ".py"@,
            files@[0].content@ == python_model_text(*model),
            files@[0].language@ == "python"@,
    {
        let class_name = to_pascal_case(model.entity.as_str());
        let mut out = "\"\"\"\n".to_owned();
        push_opt(&mut out, &model.description, "", "\n");
        push_str(&mut out, "\"\"\"\n\n");
        push_str(&mut out, "from dataclasses import dataclass, field\n");
        push_str(&mut out, "from typing import Optional\n");
        push_str(&mut out, "from datetime import datetime\n\n");
        push_str(&mut out, "@dataclass\nclass ");
        push_str(&mut out, class_name.as_str());
        push_str(&mut out, ":\n");
        proof {
            reveal_strlit("");
            assert(""@ =~= Seq::<char>::empty());
        }
        let empty: Vec<DataAttribute> = Vec::new();
        let attrs: &Vec<DataAttribute> = match &model.attributes {
            Some(v) => v,
            None => &empty,
        };
        assert(attrs@ == attrs_of(*model));
        let ghost head = out@;
        let mut i: usize = 0;
        while i < attrs.len()
            invariant
                i <= attrs@.len(),
                out@ == head + concat(attrs@.take(i as int).map_values(|a: DataAttribute| py_field_line(a))),
            decreases attrs@.len() - i,
        {
            let line = py_field(&attrs[i]);
            push_str(&mut out, line.as_str());
            proof {
                let prev = attrs@.take(i as int).map_values(|a: DataAttribute| py_field_line(a));
                assert(attrs@.take(i + 1).map_values(|a: DataAttribute| py_field_line(a)) =~= prev.push(line@));
                prev.lemma_flatten_push(line@);
            }
            i += 1;
        }
        assert(attrs@.take(attrs@.len() as int) == attrs@);
        push_str(&mut out, "\n    @classmethod\n");
        push_str(&mut out, "    def from_dict(cls, data: dict) -> '");
        push_str(&mut out, class_name.as_str());
        push_str(&mut out, "':\n");
        push_str(&mut out, "        \"\"\"Create instance from dictionary.\"\"\"\n");
        push_str(&mut out, "        return cls(**data)\n");
        push_str(&mut out, "\n    def to_dict(self) -> dict:\n");
        push_str(&mut out, "        \"\"\"Convert instance to dictionary.\"\"\"\n");
        push_str(&mut out, "        return {\n");
        let ghost mid = out@;
        let mut i: usize = 0;
        while i < attrs.len()
            invariant
                i <= attrs@.len(),
                out@ == mid + concat(attrs@.take(i as int).map_values(|a: DataAttribute| py_dict_line(a))),
            decreases attrs@.len() - i,
        {
            let line = py_dict(&attrs[i]);
            push_str(&mut out, line.as_str());
            proof {
                let prev = attrs@.take(i as int).map_values(|a: DataAttribute| py_dict_line(a));
                assert(attrs@.take(i + 1).map_values(|a: DataAttribute| py_dict_line(a)) =~= prev.push(line@));
                prev.lemma_flatten_push(line@);
            }
            i += 1;
        }
        push_str(&mut out, "        }\n");
        let mut path = to_snake_case(model.entity.as_str());
        push_str(&mut path, ".py");
        let mut files: Vec<GeneratedCode> = Vec::new();
        files.push(GeneratedCode { file_path: path, content: out, language: "python".to_owned() });
        files
    }
}

// ------------------------------------------------------------ TypeScript

/// The interface member line of an attribute, under its doc comment.
pub open spec fn ts_member_lines(a: DataAttribute) -> Seq<char> {
    opt_line(a.description, "  /** "@, " */\n"@) + "  "@ + camel(a.name@)
        + (if a.required { Seq::empty() } else { "?"@ }) + ": "@ + ts_type_name(type_class(a.attr_type@)) + ";\n"@
}

/// The class field line of an attribute.
pub open spec fn ts_field_line(a: DataAttribute) -> Seq<char> {
    "  public "@ + camel(a.name@) + (if a.required { Seq::empty() } else { "?"@ }) + ": "@
        + ts_type_name(type_class(a.attr_type@)) + ";\n"@
}

/// The constructor assignment of an attribute.
pub open spec fn ts_assign_line(a: DataAttribute) -> Seq<char> {
    "    this."@ + camel(a.name@) + " = data."@ + camel(a.name@) + ";\n"@
}

/// The TypeScript module for a data model: an interface, then a class with
/// a constructor from a partial object.
pub open spec fn ts_model_text(m: DataModel) -> Seq<char> {
    let name = pascal(m.entity@);
    let attrs = attrs_of(m);
    "/**\n"@ + opt_line(m.description, " * "@, "\n"@) + " */\n"@ + "export interface "@ + name + " {\n"@
        + concat(attrs.map_values(|a: DataAttribute| ts_member_lines(a))) + "}\n"@
        + "\nexport class "@ + name + " {\n"@
        + concat(attrs.map_values(|a: DataAttribute| ts_field_line(a)))
        + "\n  constructor(data: Partial<"@ + name + ">) {\n"@
        + concat(attrs.map_values(|a: DataAttribute| ts_assign_line(a))) + "  }\n}\n"@
}

/// TypeScript code generator.
#[derive(Debug, Clone, Copy)]
pub struct TypeScriptGenerator;

fn ts_member(a: &DataAttribute) -> (line: String)
    ensures
        line@ == ts_member_lines(*a),
{
    let mut line = String::new();
    push_opt(&mut line, &a.description, "  /** ", " */\n");
    push_str(&mut line, "  ");
    let name = to_camel_case(a.name.as_str());
    push_str(&mut line, name.as_str());
    if !a.required {
        push_str(&mut line, "?");
    }
    push_str(&mut line, ": ");
    let ty = ts_type(a.attr_type.as_str(), a.required);
    push_str(&mut line, ty.as_str());
    push_str(&mut line, ";\n");
    line
}

fn ts_field(a: &DataAttribute) -> (line: String)
    ensures
        line@ == ts_field_line(*a),
{
    let mut line = "  public ".to_owned();
    let name = to_camel_case(a.name.as_str());
    push_str(&mut line, name.as_str());
    if !a.required {
        push_str(&mut line, "?");
    }
    push_str(&mut line, ": ");
    let ty = ts_type(a.attr_type.as_str(), a.required);
    push_str(&mut line, ty.as_str());
    push_str(&mut line, ";\n");
    line
}

fn ts_assign(a: &DataAttribute) -> (line: String)
    ensures
        line@ == ts_assign_line(*a),
{
    let mut line = "    this.".to_owned();
    let name = to_camel_case(a.name.as_str());
    push_str(&mut line, name.as_str());
    push_str(&mut line, " = data.");
    push_str(&mut line, name.as_str());
    push_str(&mut line, ";\n");
    line
}

/// Which line an attribute gives in a section of generated code.
pub enum LineKind {
    PyField,
    PyDict,
    TsMember,
    TsField,
    TsAssign,
}

/// The line of an attribute for a section.
pub open spec fn line_of(k: LineKind, a: DataAttribute) -> Seq<char> {
    match k {
        LineKind::PyField => py_field_line(a),
        LineKind::PyDict => py_dict_line(a),
        LineKind::TsMember => ts_member_lines(a),
        LineKind::TsField => ts_field_line(a),
        LineKind::TsAssign => ts_assign_line(a),
    }
}

fn line_for(k: &LineKind, a: &DataAttribute) -> (line: String)
    ensures
        line@ == line_of(*k, *a),
{
    match k {
        LineKind::PyField => py_field(a),
        LineKind::PyDict => py_dict(a),
        LineKind::TsMember => ts_member(a),
        LineKind::TsField => ts_field(a),
        LineKind::TsAssign => ts_assign(a),
    }
}

/// Appends the line of each attribute, in order.
fn push_lines(out: &mut String, k: LineKind, attrs: &Vec<DataAttribute>)
    ensures
        final(out)@ == old(out)@ + concat(attrs@.map_values(|a: DataAttribute| line_of(k, a))),
{
    let ghost head = out@;
    let mut i: usize = 0;
    while i < attrs.len()
        invariant
            i <= attrs@.len(),
            head == old(out)@,
            out@ == head + concat(attrs@.take(i as int).map_values(|a: DataAttribute| line_of(k, a))),
        decreases attrs@.len() - i,
    {
        let line = line_for(&k, &attrs[i]);
        push_str(out, line.as_str());
        proof {
            let prev = attrs@.take(i as int).map_values(|a: DataAttribute| line_of(k, a));
            assert(attrs@.take(i + 1).map_values(|a: DataAttribute| line_of(k, a)) =~= prev.push(line@));
            prev.lemma_flatten_push(line@);
        }
        i += 1;
    }
    assert(attrs@.take(attrs@.len() as int) == attrs@);
}

impl TypeScriptGenerator {
    /// The interface-and-class module for a data model, in `<entity>.ts`.
    pub fn generate_data_model(&self, model: &DataModel) -> (files: Vec<GeneratedCode>)
        ensures
            files@.len() == 1,
            files@[0].file_path@ == snake(model.entity@) + ".ts"@,
            files@[0].content@ == ts_model_text(*model),
            files@[0].language@ == "typescript"@,
    {
        let name = to_pascal_case(model.entity.as_str());
        let empty: Vec<DataAttribute> = Vec::new();
        let attrs: &Vec<DataAttribute> = match &model.attributes {
            Some(v) => v,
            None => &empty,
        };
        assert(attrs@ == attrs_of(*model));
        let mut out = "/**\n".to_owned();
        push_opt(&mut out, &model.description, " * ", "\n");
        push_str(&mut out, " */\n");
        push_str(&mut out, "export interface ");
        push_str(&mut out, name.as_str());
        push_str(&mut out, " {\n");
        push_lines(&mut out, LineKind::TsMember, attrs);
        push_str(&mut out, "}\n");
        push_str(&mut out, "\nexport class ");
        push_str(&mut out, name.as_str());
        push_str(&mut out, " {\n");
        push_lines(&mut out, LineKind::TsField, attrs);
        push_str(&mut out, "\n  constructor(data: Partial<");
        push_str(&mut out, name.as_str());
        push_str(&mut out, ">) {\n");
        push_lines(&mut out, LineKind::TsAssign, attrs);
        push_str(&mut out, "  }\n}\n");
        proof {
            assert(attrs@.map_values(|a: DataAttribute| line_of(LineKind::TsMember, a)) =~= attrs@.map_values(
                |a: DataAttribute| ts_member_lines(a),
            ));
            assert(attrs@.map_values(|a: DataAttribute| line_of(LineKind::TsField, a)) =~= attrs@.map_values(
                |a: DataAttribute| ts_field_line(a),
            ));
            assert(attrs@.map_values(|a: DataAttribute| line_of(LineKind::TsAssign, a)) =~= attrs@.map_values(
                |a: DataAttribute| ts_assign_line(a),
            ));
        }
        let mut path = to_snake_case(model.entity.as_str());
        push_str(&mut path, ".ts");
        let mut files: Vec<GeneratedCode> = Vec::new();
        files.push(GeneratedCode { file_path: path, content: out, language: "typescript".to_owned() });
        files
    }
}

/// The Rust type text for an S.DEF type (wrapped in `Option` unless
/// required).
pub open spec fn rust_type_text(t: Seq<char>, required: bool) -> Seq<char> {
    if required {
        rust_type_name(type_class(t))
    } else {
        "Option<"@ + rust_type_name(type_class(t)) + ">"@
    }
}

/// The attributes with the first occurrence of each name kept, in order.
pub open spec fn dedup_by_name(s: Seq<DataAttribute>) -> Seq<DataAttribute>
    decreases s.len(),
{
    if s.len() == 0 {
        Seq::empty()
    } else {
        let r = dedup_by_name(s.drop_last());
        if s.drop_last().map_values(|a: DataAttribute| a.name@).contains(s.last().name@) {
            r
        } else {
            r.push(s.last())
        }
    }
}

/// Whether an attribute is a constructor parameter (neither generated nor
/// internal).
pub open spec fn is_ctor_param(a: DataAttribute) -> bool {
    !a.generated && !a.internal
}

/// The struct field of an attribute, under its doc comment.
pub open spec fn rs_field_lines(a: DataAttribute) -> Seq<char> {
    opt_line(a.description, "    /// "@, "\n"@) + "    pub "@ + snake(a.name@) + ": "@
        + rust_type_text(a.attr_type@, a.required) + ",\n"@
}

/// The constructor parameter of an attribute.
pub open spec fn rs_param(a: DataAttribute) -> Seq<char> {
    snake(a.name@) + ": "@ + rust_type_text(a.attr_type@, a.required)
}

/// The constructor assignment of an attribute.
pub open spec fn rs_assign_line(a: DataAttribute) -> Seq<char> {
    "            "@ + snake(a.name@) + ": "@ + snake(a.name@) + ",\n"@
}

/// The Rust module for a data model: a struct of the distinct attributes
/// and a constructor taking those neither generated nor internal, then a
/// serde derive line when the model has attributes.
pub open spec fn rust_model_text(m: DataModel) -> Seq<char> {
    rust_model_layout(m, rust_ctor_params(m))
}

/// The constructor parameters of a data model's Rust struct.
pub open spec fn rust_ctor_params(m: DataModel) -> Seq<DataAttribute> {
    dedup_by_name(attrs_of(m)).filter(|a: DataAttribute| is_ctor_param(a))
}

/// The Rust struct of a data model with the given constructor parameters.
pub open spec fn rust_model_layout(m: DataModel, params: Seq<DataAttribute>) -> Seq<char> {
    let name = pascal(m.entity@);
    let fields = dedup_by_name(attrs_of(m));
    opt_line(m.description, "/// "@, "\n"@) + "pub struct "@ + name + " {\n"@
        + concat(fields.map_values(|a: DataAttribute| rs_field_lines(a))) + "}\n"@
        + "\nimpl "@ + name + " {\n"@ + "    /// Create a new instance.\n"@ + "    pub fn new("@
        + join_seqs(params.map_values(|a: DataAttribute| rs_param(a)), ", "@) + ") -> Self {\n"@
        + "        Self {\n"@ + concat(params.map_values(|a: DataAttribute| rs_assign_line(a)))
        + "        }\n    }\n}\n"@
        + if attrs_of(m).len() > 0 { "\n#[derive(serde::Serialize, serde::Deserialize)]\n"@ } else { Seq::empty() }
}

/// The Rust constructor takes exactly the data model's attributes (each
/// name once) that are neither generated nor internal, in order: an
/// internal or generated attribute is never a parameter nor assigned, and
/// every other attribute is.
pub proof fn lemma_rust_ctor_params(m: DataModel)
    ensures
        rust_model_text(m) == rust_model_layout(
            m,
            dedup_by_name(attrs_of(m)).filter(|a: DataAttribute| !a.generated && !a.internal),
        ),
        forall|j: int| 0 <= j < rust_ctor_params(m).len() ==> !(#[trigger] rust_ctor_params(m)[j]).internal
            && !rust_ctor_params(m)[j].generated,
{
    let fields = dedup_by_name(attrs_of(m));
    let p1 = |a: DataAttribute| is_ctor_param(a);
    let p2 = |a: DataAttribute| !a.generated && !a.internal;
    assert(p1 =~= p2);
    assert forall|j: int| 0 <= j < rust_ctor_params(m).len() implies !(#[trigger] rust_ctor_params(m)[j]).internal
        && !rust_ctor_params(m)[j].generated by {
        fields.lemma_filter_pred(p1, j);
    }
}

/// Rust code generator.
#[derive(Debug, Clone, Copy)]
pub struct RustGenerator;

fn rs_field(a: &DataAttribute) -> (line: String)
    ensures
        line@ == rs_field_lines(*a),
{
    let mut line = String::new();
    push_opt(&mut line, &a.description, "    /// ", "\n");
    push_str(&mut line, "    pub ");
    let name = to_snake_case(a.name.as_str());
    push_str(&mut line, name.as_str());
    push_str(&mut line, ": ");
    let ty = rust_type(a.attr_type.as_str(), a.required);
    push_str(&mut line, ty.as_str());
    push_str(&mut line, ",\n");
    line
}

fn rs_param_text(a: &DataAttribute) -> (p: String)
    ensures
        p@ == rs_param(*a),
{
    let mut p = to_snake_case(a.name.as_str());
    push_str(&mut p, ": ");
    let ty = rust_type(a.attr_type.as_str(), a.required);
    push_str(&mut p, ty.as_str());
    p
}

fn rs_assign(a: &DataAttribute) -> (line: String)
    ensures
        line@ == rs_assign_line(*a),
{
    let mut line = "            ".to_owned();
    let name = to_snake_case(a.name.as_str());
    push_str(&mut line, name.as_str());
    push_str(&mut line, ": ");
    push_str(&mut line, name.as_str());
    push_str(&mut line, ",\n");
    line
}

fn name_seen(v: &Vec<DataAttribute>, upto: usize, name: &String) -> (r: bool)
    requires
        upto <= v@.len(),
    ensures
        r == v@.take(upto as int).map_values(|a: DataAttribute| a.name@).contains(name@),
{
    let ghost names = v@.take(upto as int).map_values(|a: DataAttribute| a.name@);
    let mut i: usize = 0;
    while i < upto
        invariant
            i <= upto <= v@.len(),
            names == v@.take(upto as int).map_values(|a: DataAttribute| a.name@),
            forall|k: int| 0 <= k < i ==> names[k] != name@,
        decreases upto - i,
    {
        if crate::text::str_eq(v[i].name.as_str(), name.as_str()) {
            assert(names[i as int] == name@);
            return true;
        }
        i += 1;
    }
    false
}

fn dedup_attrs(attrs: &Vec<DataAttribute>) -> (r: Vec<DataAttribute>)
    ensures
        r@ == dedup_by_name(attrs@),
{
    let mut r: Vec<DataAttribute> = Vec::new();
    let mut i: usize = 0;
    while i < attrs.len()
        invariant
            i <= attrs@.len(),
            r@ == dedup_by_name(attrs@.take(i as int)),
        decreases attrs@.len() - i,
    {
        proof {
            assert(attrs@.take(i + 1).drop_last() == attrs@.take(i as int));
            assert(attrs@.take(i + 1).last() == attrs@[i as int]);
        }
        if !name_seen(attrs, i, &attrs[i].name) {
            r.push(clone_attr(&attrs[i]));
        }
        i += 1;
    }
    assert(attrs@.take(attrs@.len() as int) == attrs@);
    r
}

fn clone_opt(o: &Option<String>) -> (r: Option<String>)
    ensures
        r == *o,
{
    match o {
        Some(s) => Some(s.clone()),
        None => None,
    }
}

fn clone_attr(a: &DataAttribute) -> (r: DataAttribute)
    ensures
        r == *a,
{
    DataAttribute {
        name: a.name.clone(),
        attr_type: a.attr_type.clone(),
        description: clone_opt(&a.description),
        required: a.required,
        generated: a.generated,
        internal: a.internal,
    }
}

impl RustGenerator {
    /// The struct module for a data model, in `<entity>.rs`.
    pub fn generate_data_model(&self, model: &DataModel) -> (files: Vec<GeneratedCode>)
        ensures
            files@.len() == 1,
            files@[0].file_path@ == snake(model.entity@) + ".rs"@,
            files@[0].content@ == rust_model_text(*model),
            files@[0].language@ == "rust"@,
    {
        let name = to_pascal_case(model.entity.as_str());
        let empty: Vec<DataAttribute> = Vec::new();
        let attrs: &Vec<DataAttribute> = match &model.attributes {
            Some(v) => v,
            None => &empty,
        };
        assert(attrs@ == attrs_of(*model));
        let fields = dedup_attrs(attrs);
        let mut out = String::new();
        push_opt(&mut out, &model.description, "/// ", "\n");
        push_str(&mut out, "pub struct ");
        push_str(&mut out, name.as_str());
        push_str(&mut out, " {\n");
        let ghost h1 = out@;
        let mut i: usize = 0;
        while i < fields.len()
            invariant
                i <= fields@.len(),
                out@ == h1 + concat(fields@.take(i as int).map_values(|a: DataAttribute| rs_field_lines(a))),
            decreases fields@.len() - i,
        {
            let line = rs_field(&fields[i]);
            push_str(&mut out, line.as_str());
            proof {
                let prev = fields@.take(i as int).map_values(|a: DataAttribute| rs_field_lines(a));
                assert(fields@.take(i + 1).map_values(|a: DataAttribute| rs_field_lines(a)) =~= prev.push(line@));
                prev.lemma_flatten_push(line@);
            }
            i += 1;
        }
        assert(fields@.take(fields@.len() as int) == fields@);
        push_str(&mut out, "}\n");
        push_str(&mut out, "\nimpl ");
        push_str(&mut out, name.as_str());
        push_str(&mut out, " {\n");
        push_str(&mut out, "    /// Create a new instance.\n");
        push_str(&mut out, "    pub fn new(");
        let ghost pred = |a: DataAttribute| is_ctor_param(a);
        let mut params: Vec<String> = Vec::new();
        let mut assigns = String::new();
        let mut i: usize = 0;
        while i < fields.len()
            invariant
                i <= fields@.len(),
                pred == (|a: DataAttribute| is_ctor_param(a)),
                string_views(params@) == fields@.take(i as int).filter(pred).map_values(|a: DataAttribute| rs_param(a)),
                assigns@ == concat(fields@.take(i as int).filter(pred).map_values(|a: DataAttribute| rs_assign_line(a))),
            decreases fields@.len() - i,
        {
            proof {
                assert(fields@.take(i + 1).drop_last() == fields@.take(i as int));
                assert(fields@.take(i + 1).last() == fields@[i as int]);
                reveal_with_fuel(Seq::filter, 1);
            }
            if !fields[i].generated && !fields[i].internal {
                let p = rs_param_text(&fields[i]);
                let line = rs_assign(&fields[i]);
                let ghost pb = params@;
                let ghost ab = assigns@;
                params.push(p);
                push_str(&mut assigns, line.as_str());
                proof {
                    let before = fields@.take(i as int).filter(pred);
                    let after = fields@.take(i + 1).filter(pred);
                    assert(after == before.push(fields@[i as int]));
                    assert(string_views(params@) =~= string_views(pb).push(p@));
                    assert(after.map_values(|a: DataAttribute| rs_param(a)) =~= before.map_values(
                        |a: DataAttribute| rs_param(a),
                    ).push(p@));
                    let bl = before.map_values(|a: DataAttribute| rs_assign_line(a));
                    assert(after.map_values(|a: DataAttribute| rs_assign_line(a)) =~= bl.push(line@));
                    bl.lemma_flatten_push(line@);
                }
            }
            i += 1;
        }
        let joined = join_strings(&params, ", ");
        push_str(&mut out, joined.as_str());
        push_str(&mut out, ") -> Self {\n");
        push_str(&mut out, "        Self {\n");
        push_str(&mut out, assigns.as_str());
        push_str(&mut out, "        }\n    }\n}\n");
        if attrs.len() > 0 {
            push_str(&mut out, "\n#[derive(serde::Serialize, serde::Deserialize)]\n");
        } else {
            assert(out@ + Seq::<char>::empty() =~= out@);
        }
        let mut path = to_snake_case(model.entity.as_str());
        push_str(&mut path, ".rs");
        let mut files: Vec<GeneratedCode> = Vec::new();
        files.push(GeneratedCode { file_path: path, content: out, language: "rust".to_owned() });
        files
    }
}

} // verus!
