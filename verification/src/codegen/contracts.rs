//! Code generation from S.DEF contracts and function specifications:
//! interface, class and function stubs in Python, TypeScript and Rust.

use vstd::prelude::*;
use crate::codegen::{opt_line, push_opt, rust_type_text, GeneratedCode, PythonGenerator, RustGenerator, TypeScriptGenerator};
use crate::naming::{
    camel, concat, pascal, python_type, python_type_name, rust_type, snake, to_camel_case, to_pascal_case,
    to_snake_case, ts_type, ts_type_name, type_class,
};
use crate::text::{chars_of, join_seqs, join_strings, push_str, slice_chars, str_eq, string_of, string_views};

verus! {

/// A parameter (or a result) of a function specification.
#[derive(Debug, Clone)]
pub struct FunctionParam {
    pub name: String,
    pub param_type: String,
}

/// A function specification of an S.DEF document.
#[derive(Debug, Clone)]
pub struct FunctionSpec {
    pub name: String,
    pub description: Option<String>,
    pub inputs: Option<Vec<FunctionParam>>,
    pub outputs: Option<Vec<FunctionParam>>,
    pub logic: Option<String>,
}

/// A method of an interface contract: its signature text, `name(params)`,
/// and its behaviour.
#[derive(Debug, Clone)]
pub struct ContractMethod {
    pub signature: String,
    pub behavior: Option<String>,
}

/// An interface contract of an S.DEF document.
#[derive(Debug, Clone)]
pub struct InterfaceContract {
    pub name: String,
    pub description: Option<String>,
    pub methods: Option<Vec<ContractMethod>>,
}

/// A class contract of an S.DEF document.
#[derive(Debug, Clone)]
pub struct ClassContract {
    pub name: String,
    pub description: Option<String>,
    pub implements: Option<Vec<String>>,
}

// ------------------------------------------------------- signature text

/// The index of the first `c` in `s` (its length when there is none).
pub open spec fn first_index(s: Seq<char>, c: char) -> nat
    decreases s.len(),
{
    if s.len() == 0 {
        0
    } else if s[0] == c {
        0
    } else {
        1 + first_index(s.drop_first(), c)
    }
}

/// `s` without its trailing `)` characters.
pub open spec fn trim_close(s: Seq<char>) -> Seq<char>
    decreases s.len(),
{
    if s.len() > 0 && s.last() == ')' {
        trim_close(s.drop_last())
    } else {
        s
    }
}

/// The method name of a signature: the text before the first `(`.
pub open spec fn sig_name(s: Seq<char>) -> Seq<char> {
    s.take(first_index(s, '(') as int)
}

/// The parameter text of a signature: what follows the first `(` up to
/// the next `(`, without trailing `)`; empty when there is no `(`.
pub open spec fn sig_params(s: Seq<char>) -> Seq<char> {
    let i = first_index(s, '(');
    if i < s.len() {
        let rest = s.skip(i + 1 as int);
        trim_close(rest.take(first_index(rest, '(') as int))
    } else {
        Seq::empty()
    }
}

proof fn lemma_first_index_bound(s: Seq<char>, c: char)
    ensures
        first_index(s, c) <= s.len(),
        first_index(s, c) < s.len() ==> s[first_index(s, c) as int] == c,
    decreases s.len(),
{
    if s.len() > 0 && s[0] != c {
        lemma_first_index_bound(s.drop_first(), c);
    }
}

fn find_char(v: &[char], c: char) -> (r: usize)
    ensures
        r == first_index(v@, c),
        r <= v@.len(),
{
    let mut i: usize = 0;
    assert(v@.skip(0) =~= v@);
    while i < v.len()
        invariant
            i <= v@.len(),
            first_index(v@, c) == i + first_index(v@.skip(i as int), c),
        decreases v@.len() - i,
    {
        let ghost t = v@.skip(i as int);
        if v[i] == c {
            assert(t[0] == v@[i as int]);
            return i;
        }
        assert(t.drop_first() =~= v@.skip(i + 1));
        i += 1;
    }
    assert(v@.skip(i as int).len() == 0);
    proof {
        lemma_first_index_bound(v@, c);
    }
    i
}

fn trim_close_chars(v: &[char]) -> (r: Vec<char>)
    ensures
        r@ == trim_close(v@),
{
    let mut j: usize = v.len();
    assert(v@.take(j as int) =~= v@);
    while j > 0 && v[j - 1] == ')'
        invariant
            j <= v@.len(),
            trim_close(v@.take(j as int)) == trim_close(v@),
        decreases j,
    {
        assert(v@.take(j as int).drop_last() =~= v@.take(j - 1));
        j -= 1;
    }
    assert(v@.take(j as int) =~= v@.subrange(0, j as int));
    slice_chars(v, 0, j)
}

/// Splits a method signature into its name and its parameter text.
fn split_signature(sig: &str) -> (r: (String, String))
    ensures
        r.0@ == sig_name(sig@),
        r.1@ == sig_params(sig@),
{
    let v = chars_of(sig);
    let i = find_char(v.as_slice(), '(');
    let head = slice_chars(v.as_slice(), 0, i);
    assert(v@.subrange(0, i as int) =~= v@.take(i as int));
    let name = string_of(head.as_slice());
    if i < v.len() {
        let rest = slice_chars(v.as_slice(), i + 1, v.len());
        assert(rest@ =~= v@.skip(i + 1));
        let j = find_char(rest.as_slice(), '(');
        let seg = slice_chars(rest.as_slice(), 0, j);
        assert(seg@ =~= rest@.take(j as int));
        let params = trim_close_chars(seg.as_slice());
        (name, string_of(params.as_slice()))
    } else {
        (name, String::new())
    }
}

// ------------------------------------------------- per-language pieces

/// The language a stub is generated in.
#[derive(Debug, Clone, Copy)]
pub enum Target {
    Python,
    TypeScript,
    Rust,
}

/// The type text of an S.DEF type in a function stub (Rust ones wrapped
/// in `Option`).
pub open spec fn type_text(t: Target, ty: Seq<char>) -> Seq<char> {
    match t {
        Target::Python => python_type_name(type_class(ty)),
        Target::TypeScript => ts_type_name(type_class(ty)),
        Target::Rust => rust_type_text(ty, false),
    }
}

/// A parameter in a function stub; Python leaves `object` ones untyped.
pub open spec fn param_text(t: Target, p: FunctionParam) -> Seq<char> {
    match t {
        Target::Python => if type_text(t, p.param_type@) == "object"@ {
            snake(p.name@)
        } else {
            snake(p.name@) + ": "@ + type_text(t, p.param_type@)
        },
        Target::TypeScript => camel(p.name@) + ": "@ + type_text(t, p.param_type@),
        Target::Rust => snake(p.name@) + ": "@ + type_text(t, p.param_type@),
    }
}

/// The parameter list of a function stub.
pub open spec fn params_text(t: Target, ins: Option<Vec<FunctionParam>>) -> Seq<char> {
    match ins {
        Some(v) => join_seqs(v@.map_values(|p: FunctionParam| param_text(t, p)), ", "@),
        None => Seq::empty(),
    }
}

/// The type of "no result".
pub open spec fn unit_text(t: Target) -> Seq<char> {
    match t {
        Target::Python => "None"@,
        Target::TypeScript => "void"@,
        Target::Rust => "()"@,
    }
}

/// The opening of a tuple type.
pub open spec fn tuple_open(t: Target) -> Seq<char> {
    match t {
        Target::Python => "Tuple["@,
        Target::TypeScript => "["@,
        Target::Rust => "("@,
    }
}

/// The closing of a tuple type.
pub open spec fn tuple_close(t: Target) -> Seq<char> {
    match t {
        Target::Python => "]"@,
        Target::TypeScript => "]"@,
        Target::Rust => ")"@,
    }
}

/// The result type of a function stub: the one output's type, a tuple of
/// several, or the unit type.
pub open spec fn ret_text(t: Target, outs: Option<Vec<FunctionParam>>) -> Seq<char> {
    match outs {
        Some(v) => if v@.len() == 1 {
            type_text(t, v@[0].param_type@)
        } else if v@.len() > 1 {
            tuple_open(t) + join_seqs(v@.map_values(|o: FunctionParam| type_text(t, o.param_type@)), ", "@)
                + tuple_close(t)
        } else {
            unit_text(t)
        },
        None => unit_text(t),
    }
}

/// A method of an interface stub.
pub open spec fn method_text(t: Target, m: ContractMethod) -> Seq<char> {
    let name = sig_name(m.signature@);
    let params = sig_params(m.signature@);
    match t {
        Target::Python => opt_line(m.behavior, "    \"\"\""@, " -- \"\"\"\n"@) + "    @abstractmethod\n    def "@
            + snake(name) + "("@ + params + ") -> None:\n"@ + "        pass\n\n"@,
        Target::TypeScript => opt_line(m.behavior, "  /** "@, "\n   */\n"@) + "  "@ + camel(name) + "("@ + params
            + "): void;\n"@,
        Target::Rust => opt_line(m.behavior, "    /// "@, "\n"@) + "    fn "@ + snake(name) + "("@ + params + ");\n"@,
    }
}

fn type_for(t: Target, ty: &str) -> (r: String)
    ensures
        r@ == type_text(t, ty@),
{
    match t {
        Target::Python => python_type(ty, false),
        Target::TypeScript => ts_type(ty, false),
        Target::Rust => rust_type(ty, false),
    }
}

fn param_for(t: Target, p: &FunctionParam) -> (r: String)
    ensures
        r@ == param_text(t, *p),
{
    let ty = type_for(t, p.param_type.as_str());
    match t {
        Target::Python => {
            let mut r = to_snake_case(p.name.as_str());
            if !str_eq(ty.as_str(), "object") {
                push_str(&mut r, ": ");
                push_str(&mut r, ty.as_str());
            }
            r
        },
        Target::TypeScript => {
            let mut r = to_camel_case(p.name.as_str());
            push_str(&mut r, ": ");
            push_str(&mut r, ty.as_str());
            r
        },
        Target::Rust => {
            let mut r = to_snake_case(p.name.as_str());
            push_str(&mut r, ": ");
            push_str(&mut r, ty.as_str());
            r
        },
    }
}

fn params_for(t: Target, ins: &Option<Vec<FunctionParam>>) -> (r: String)
    ensures
        r@ == params_text(t, *ins),
{
    match ins {
        Some(v) => {
            let mut parts: Vec<String> = Vec::new();
            let mut i: usize = 0;
            while i < v.len()
                invariant
                    i <= v@.len(),
                    string_views(parts@) == v@.take(i as int).map_values(|p: FunctionParam| param_text(t, p)),
                decreases v@.len() - i,
            {
                let s = param_for(t, &v[i]);
                let ghost before = parts@;
                parts.push(s);
                proof {
                    assert(string_views(parts@) =~= string_views(before).push(s@));
                    assert(v@.take(i + 1).map_values(|p: FunctionParam| param_text(t, p)) =~= v@.take(
                        i as int,
                    ).map_values(|p: FunctionParam| param_text(t, p)).push(param_text(t, v@[i as int])));
                }
                i += 1;
            }
            assert(v@.take(v@.len() as int) == v@);
            join_strings(&parts, ", ")
        },
        None => String::new(),
    }
}

fn ret_for(t: Target, outs: &Option<Vec<FunctionParam>>) -> (r: String)
    ensures
        r@ == ret_text(t, *outs),
{
    let unit = match t {
        Target::Python => "None",
        Target::TypeScript => "void",
        Target::Rust => "()",
    };
    match outs {
        Some(v) => {
            if v.len() == 1 {
                type_for(t, v[0].param_type.as_str())
            } else if v.len() > 1 {
                let mut parts: Vec<String> = Vec::new();
                let mut i: usize = 0;
                while i < v.len()
                    invariant
                        i <= v@.len(),
                        string_views(parts@) == v@.take(i as int).map_values(
                            |o: FunctionParam| type_text(t, o.param_type@),
                        ),
                    decreases v@.len() - i,
                {
                    let s = type_for(t, v[i].param_type.as_str());
                    let ghost before = parts@;
                    parts.push(s);
                    proof {
                        assert(string_views(parts@) =~= string_views(before).push(s@));
                        assert(v@.take(i + 1).map_values(|o: FunctionParam| type_text(t, o.param_type@)) =~= v@.take(
                            i as int,
                        ).map_values(|o: FunctionParam| type_text(t, o.param_type@)).push(
                            type_text(t, v@[i as int].param_type@),
                        ));
                    }
                    i += 1;
                }
                assert(v@.take(v@.len() as int) == v@);
                let mut r = match t {
                    Target::Python => "Tuple[".to_owned(),
                    Target::TypeScript => "[".to_owned(),
                    Target::Rust => "(".to_owned(),
                };
                let joined = join_strings(&parts, ", ");
                push_str(&mut r, joined.as_str());
                match t {
                    Target::Python => push_str(&mut r, "]"),
                    Target::TypeScript => push_str(&mut r, "]"),
                    Target::Rust => push_str(&mut r, ")"),
                }
                r
            } else {
                unit.to_owned()
            }
        },
        None => unit.to_owned(),
    }
}

fn method_for(t: Target, m: &ContractMethod) -> (r: String)
    ensures
        r@ == method_text(t, *m),
{
    let (name, params) = split_signature(m.signature.as_str());
    let mut r = String::new();
    match t {
        Target::Python => {
            push_opt(&mut r, &m.behavior, "    \"\"\"", " -- \"\"\"\n");
            push_str(&mut r, "    @abstractmethod\n    def ");
            let n = to_snake_case(name.as_str());
            push_str(&mut r, n.as_str());
            push_str(&mut r, "(");
            push_str(&mut r, params.as_str());
            push_str(&mut r, ") -> None:\n");
            push_str(&mut r, "        pass\n\n");
        },
        Target::TypeScript => {
            push_opt(&mut r, &m.behavior, "  /** ", "\n   */\n");
            push_str(&mut r, "  ");
            let n = to_camel_case(name.as_str());
            push_str(&mut r, n.as_str());
            push_str(&mut r, "(");
            push_str(&mut r, params.as_str());
            push_str(&mut r, "): void;\n");
        },
        Target::Rust => {
            push_opt(&mut r, &m.behavior, "    /// ", "\n");
            push_str(&mut r, "    fn ");
            let n = to_snake_case(name.as_str());
            push_str(&mut r, n.as_str());
            push_str(&mut r, "(");
            push_str(&mut r, params.as_str());
            push_str(&mut r, ");\n");
        },
    }
    proof {
        assert(Seq::<char>::empty() + r@ =~= r@);
    }
    r
}

/// The methods of an interface (none when absent).
pub open spec fn methods_of(i: InterfaceContract) -> Seq<ContractMethod> {
    match i.methods {
        Some(v) => v@,
        None => Seq::empty(),
    }
}

fn push_methods(out: &mut String, t: Target, methods: &Option<Vec<ContractMethod>>)
    ensures
        final(out)@ == old(out)@ + concat(
            match *methods {
                Some(v) => v@,
                None => Seq::<ContractMethod>::empty(),
            }.map_values(|m: ContractMethod| method_text(t, m)),
        ),
{
    match methods {
        Some(v) => {
            let ghost head = out@;
            let mut i: usize = 0;
            while i < v.len()
                invariant
                    i <= v@.len(),
                    head == old(out)@,
                    out@ == head + concat(v@.take(i as int).map_values(|m: ContractMethod| method_text(t, m))),
                decreases v@.len() - i,
            {
                let line = method_for(t, &v[i]);
                push_str(out, line.as_str());
                proof {
                    let prev = v@.take(i as int).map_values(|m: ContractMethod| method_text(t, m));
                    assert(v@.take(i + 1).map_values(|m: ContractMethod| method_text(t, m)) =~= prev.push(line@));
                    prev.lemma_flatten_push(line@);
                }
                i += 1;
            }
            assert(v@.take(v@.len() as int) == v@);
        },
        None => {
            assert(Seq::<ContractMethod>::empty().map_values(|m: ContractMethod| method_text(t, m)) =~= Seq::<
                Seq<char>,
            >::empty());
            assert(Seq::<Seq<char>>::empty().flatten() =~= Seq::<char>::empty());
            assert(old(out)@ + Seq::<char>::empty() =~= old(out)@);
        },
    }
}

/// The implemented interfaces of a class (none when absent).
pub open spec fn implements_of(c: ClassContract) -> Seq<Seq<char>> {
    match c.implements {
        Some(v) => string_views(v@),
        None => Seq::empty(),
    }
}

/// How an implemented interface name is written in a class stub.
#[derive(Debug, Clone, Copy)]
pub enum NameStyle {
    /// Python import line of the interface module.
    PyImport,
    /// Python base class name.
    PyBase,
    /// PascalCase name.
    Pascal,
    /// Rust `impl` block for the class.
    RustImpl,
}

/// An implemented interface `i` of class `class_name`, written in a style.
pub open spec fn name_text(k: NameStyle, class_name: Seq<char>, i: Seq<char>) -> Seq<char> {
    match k {
        NameStyle::PyImport => "from ."@ + snake(i) + " import "@ + pascal(i) + "Interface\n"@,
        NameStyle::PyBase => pascal(i) + "Interface"@,
        NameStyle::Pascal => pascal(i),
        NameStyle::RustImpl => "impl "@ + i + " for "@ + class_name + " {\n"@
            + "    // TODO: Implement trait methods\n}\n\n"@,
    }
}

fn name_for(k: NameStyle, class_name: &str, i: &str) -> (r: String)
    ensures
        r@ == name_text(k, class_name@, i@),
{
    match k {
        NameStyle::PyImport => {
            let mut r = "from .".to_owned();
            let sn = to_snake_case(i);
            push_str(&mut r, sn.as_str());
            push_str(&mut r, " import ");
            let pn = to_pascal_case(i);
            push_str(&mut r, pn.as_str());
            push_str(&mut r, "Interface\n");
            r
        },
        NameStyle::PyBase => {
            let mut r = to_pascal_case(i);
            push_str(&mut r, "Interface");
            r
        },
        NameStyle::Pascal => to_pascal_case(i),
        NameStyle::RustImpl => {
            let mut r = "impl ".to_owned();
            push_str(&mut r, i);
            push_str(&mut r, " for ");
            push_str(&mut r, class_name);
            push_str(&mut r, " {\n");
            push_str(&mut r, "    // TODO: Implement trait methods\n}\n\n");
            r
        },
    }
}

/// The implemented interfaces of a class, each written in a style.
fn names_for(k: NameStyle, class_name: &str, implements: &Option<Vec<String>>) -> (r: Vec<String>)
    ensures
        string_views(r@) == match *implements {
            Some(v) => string_views(v@),
            None => Seq::<Seq<char>>::empty(),
        }.map_values(|i: Seq<char>| name_text(k, class_name@, i)),
{
    let mut r: Vec<String> = Vec::new();
    match implements {
        Some(v) => {
            let mut j: usize = 0;
            while j < v.len()
                invariant
                    j <= v@.len(),
                    string_views(r@) == string_views(v@.take(j as int)).map_values(
                        |i: Seq<char>| name_text(k, class_name@, i),
                    ),
                decreases v@.len() - j,
            {
                let s = name_for(k, class_name, v[j].as_str());
                let ghost before = r@;
                r.push(s);
                proof {
                    assert(string_views(r@) =~= string_views(before).push(s@));
                    assert(string_views(v@.take(j + 1)).map_values(|i: Seq<char>| name_text(k, class_name@, i))
                        =~= string_views(v@.take(j as int)).map_values(|i: Seq<char>| name_text(k, class_name@, i)).push(
                        name_text(k, class_name@, v@[j as int]@),
                    ));
                }
                j += 1;
            }
            assert(v@.take(v@.len() as int) == v@);
        },
        None => {
            assert(string_views(r@) =~= Seq::<Seq<char>>::empty().map_values(
                |i: Seq<char>| name_text(k, class_name@, i),
            ));
        },
    }
    r
}

/// The concatenation of some strings.
fn concat_strings(v: &Vec<String>) -> (r: String)
    ensures
        r@ == concat(string_views(v@)),
{
    let mut r = String::new();
    let mut i: usize = 0;
    while i < v.len()
        invariant
            i <= v@.len(),
            r@ == concat(string_views(v@.take(i as int))),
        decreases v@.len() - i,
    {
        push_str(&mut r, v[i].as_str());
        proof {
            let prev = string_views(v@.take(i as int));
            assert(string_views(v@.take(i + 1)) =~= prev.push(v@[i as int]@));
            prev.lemma_flatten_push(v@[i as int]@);
        }
        i += 1;
    }
    proof {
        assert(v@.take(v@.len() as int) == v@);
        assert(string_views(v@.take(0)) =~= Seq::<Seq<char>>::empty());
        assert(Seq::<Seq<char>>::empty().flatten() =~= Seq::<char>::empty());
    }
    r
}

// ---------------------------------------------------------------- texts

/// The Python module of an interface: an abstract base class.
pub open spec fn python_interface_text(c: InterfaceContract) -> Seq<char> {
    "\"\"\"\n"@ + opt_line(c.description, Seq::empty(), "\n"@) + "\"\"\"\n\n"@ + "from abc import ABC, abstractmethod\n\n"@
        + "class "@ + pascal(c.name@) + "Interface(ABC):\n"@
        + concat(methods_of(c).map_values(|m: ContractMethod| method_text(Target::Python, m)))
}

/// The TypeScript module of an interface.
pub open spec fn ts_interface_text(c: InterfaceContract) -> Seq<char> {
    "/**\n"@ + opt_line(c.description, " * "@, "\n"@) + " */\n"@ + "export interface "@ + pascal(c.name@) + " {\n"@
        + concat(methods_of(c).map_values(|m: ContractMethod| method_text(Target::TypeScript, m))) + "}\n"@
}

/// The Rust module of an interface: a trait.
pub open spec fn rust_interface_text(c: InterfaceContract) -> Seq<char> {
    opt_line(c.description, "/// "@, "\n"@) + "pub trait "@ + pascal(c.name@) + " {\n"@
        + concat(methods_of(c).map_values(|m: ContractMethod| method_text(Target::Rust, m))) + "}\n"@
}

/// The Python module of a class: the interface imports, then the class
/// deriving from each interface.
pub open spec fn python_class_text(c: ClassContract) -> Seq<char> {
    let impls = implements_of(c);
    let name = pascal(c.name@);
    "\"\"\"\n"@ + opt_line(c.description, Seq::empty(), "\n"@) + "\"\"\"\n\n"@
        + concat(impls.map_values(|i: Seq<char>| name_text(NameStyle::PyImport, name, i))) + "class "@ + name
        + (if impls.len() > 0 {
        "("@ + join_seqs(impls.map_values(|i: Seq<char>| name_text(NameStyle::PyBase, name, i)), ", "@) + ")"@
    } else {
        Seq::empty()
    }) + ":\n"@ + "    \"\"\"Class implementation.\"\"\"\n\n"@ + "    def __init__(self) -> None:\n"@
        + "        super().__init__()\n"@ + "        # TODO: Initialize attributes\n"@ + "        pass\n"@
}

/// The TypeScript module of a class.
pub open spec fn ts_class_text(c: ClassContract) -> Seq<char> {
    let impls = implements_of(c);
    let name = pascal(c.name@);
    "/**\n"@ + opt_line(c.description, " * "@, "\n"@) + " */\n"@ + "export class "@ + name + (if impls.len() > 0 {
        " implements "@ + join_seqs(impls.map_values(|i: Seq<char>| name_text(NameStyle::Pascal, name, i)), ", "@)
    } else {
        Seq::empty()
    }) + " {\n"@ + "  constructor() {}\n"@ + "\n  // TODO: Add class methods\n"@ + "}\n"@
}

/// The Rust module of a class: a struct deriving `Debug`, `Clone` and the
/// implemented traits, an `impl` block per trait and a constructor.
pub open spec fn rust_class_text(c: ClassContract) -> Seq<char> {
    let impls = implements_of(c);
    let name = pascal(c.name@);
    "#[derive("@ + join_seqs(seq!["Debug"@, "Clone"@] + impls, ", "@) + ")]\n"@ + opt_line(c.description, "/// "@, "\n"@)
        + "pub struct "@ + name + " {\n"@ + "    // TODO: Add fields from data model\n"@ + "}\n\n"@
        + concat(impls.map_values(|i: Seq<char>| name_text(NameStyle::RustImpl, name, i))) + "impl "@ + name
        + " {\n"@ + "    pub fn new() -> Self {\n"@ + "        Self { }\n    }\n}\n"@
}

/// The Python module of a function stub.
pub open spec fn python_function_text(f: FunctionSpec) -> Seq<char> {
    "\"\"\"\n"@ + opt_line(f.description, Seq::empty(), "\n"@) + "\"\"\"\n\n"@ + "def "@ + snake(f.name@) + "("@
        + params_text(Target::Python, f.inputs) + ") -> "@ + ret_text(Target::Python, f.outputs) + ":\n"@
        + opt_line(f.logic, "    # "@, "\n"@) + "    raise NotImplementedError()\n"@
}

/// The TypeScript module of a function stub (no annotation for `void`).
pub open spec fn ts_function_text(f: FunctionSpec) -> Seq<char> {
    let ret = ret_text(Target::TypeScript, f.outputs);
    "/**\n"@ + opt_line(f.description, " * "@, "\n"@) + " */\n"@ + "export function "@ + camel(f.name@) + "("@
        + params_text(Target::TypeScript, f.inputs) + ")"@ + (if ret == "void"@ {
        Seq::empty()
    } else {
        ": "@ + ret
    }) + " {\n"@ + opt_line(f.logic, "  // "@, "\n"@) + "  throw new Error('Not implemented');\n"@ + "}\n"@
}

/// The Rust module of a function stub.
pub open spec fn rust_function_text(f: FunctionSpec) -> Seq<char> {
    opt_line(f.description, "/// "@, "\n"@) + "pub fn "@ + snake(f.name@) + "("@ + params_text(Target::Rust, f.inputs)
        + ") -> "@ + ret_text(Target::Rust, f.outputs) + " {\n"@ + opt_line(f.logic, "    // "@, "\n"@)
        + "    todo!()\n}\n"@
}

fn one_file(path: String, content: String, language: &str) -> (files: Vec<GeneratedCode>)
    ensures
        files@.len() == 1,
        files@[0].file_path == path,
        files@[0].content == content,
        files@[0].language@ == language@,
{
    let mut files: Vec<GeneratedCode> = Vec::new();
    files.push(GeneratedCode { file_path: path, content, language: language.to_owned() });
    files
}

proof fn lemma_empty_literal()
    ensures
        ""@ == Seq::<char>::empty(),
{
    reveal_strlit("");
    assert(""@ =~= Seq::<char>::empty());
}

impl PythonGenerator {
    /// The abstract base class of an interface, in `<name>_interface.py`.
    pub fn generate_interface(&self, interface: &InterfaceContract) -> (files: Vec<GeneratedCode>)
        ensures
            files@.len() == 1,
            files@[0].file_path@ == snake(interface.name@) + "_interface.py"@,
            files@[0].content@ == python_interface_text(*interface),
            files@[0].language@ == "python"@,
    {
        proof {
            lemma_empty_literal();
        }
        let mut out = "\"\"\"\n".to_owned();
        push_opt(&mut out, &interface.description, "", "\n");
        push_str(&mut out, "\"\"\"\n\n");
        push_str(&mut out, "from abc import ABC, abstractmethod\n\n");
        push_str(&mut out, "class ");
        let name = to_pascal_case(interface.name.as_str());
        push_str(&mut out, name.as_str());
        push_str(&mut out, "Interface(ABC):\n");
        push_methods(&mut out, Target::Python, &interface.methods);
        let mut path = to_snake_case(interface.name.as_str());
        push_str(&mut path, "_interface.py");
        one_file(path, out, "python")
    }

    /// The class module of a class contract, in `<name>.py`.
    pub fn generate_class(&self, class: &ClassContract) -> (files: Vec<GeneratedCode>)
        ensures
            files@.len() == 1,
            files@[0].file_path@ == snake(class.name@) + ".py"@,
            files@[0].content@ == python_class_text(*class),
            files@[0].language@ == "python"@,
    {
        proof {
            lemma_empty_literal();
        }
        let name = to_pascal_case(class.name.as_str());
        let mut out = "\"\"\"\n".to_owned();
        push_opt(&mut out, &class.description, "", "\n");
        push_str(&mut out, "\"\"\"\n\n");
        let imports = names_for(NameStyle::PyImport, name.as_str(), &class.implements);
        let imports_text = concat_strings(&imports);
        push_str(&mut out, imports_text.as_str());
        push_str(&mut out, "class ");
        push_str(&mut out, name.as_str());
        let bases = names_for(NameStyle::PyBase, name.as_str(), &class.implements);
        if bases.len() > 0 {
            push_str(&mut out, "(");
            let joined = join_strings(&bases, ", ");
            push_str(&mut out, joined.as_str());
            push_str(&mut out, ")");
        }
        push_str(&mut out, ":\n");
        push_str(&mut out, "    \"\"\"Class implementation.\"\"\"\n\n");
        push_str(&mut out, "    def __init__(self) -> None:\n");
        push_str(&mut out, "        super().__init__()\n");
        push_str(&mut out, "        # TODO: Initialize attributes\n");
        push_str(&mut out, "        pass\n");
        let mut path = to_snake_case(class.name.as_str());
        push_str(&mut path, ".py");
        one_file(path, out, "python")
    }

    /// The function stub of a function specification, in `<name>.py`.
    pub fn generate_function(&self, func: &FunctionSpec) -> (file: GeneratedCode)
        ensures
            file.file_path@ == snake(func.name@) + ".py"@,
            file.content@ == python_function_text(*func),
            file.language@ == "python"@,
    {
        proof {
            lemma_empty_literal();
        }
        let fn_name = to_snake_case(func.name.as_str());
        let mut out = "\"\"\"\n".to_owned();
        push_opt(&mut out, &func.description, "", "\n");
        push_str(&mut out, "\"\"\"\n\n");
        push_str(&mut out, "def ");
        push_str(&mut out, fn_name.as_str());
        push_str(&mut out, "(");
        let params = params_for(Target::Python, &func.inputs);
        push_str(&mut out, params.as_str());
        push_str(&mut out, ") -> ");
        let ret = ret_for(Target::Python, &func.outputs);
        push_str(&mut out, ret.as_str());
        push_str(&mut out, ":\n");
        push_opt(&mut out, &func.logic, "    # ", "\n");
        push_str(&mut out, "    raise NotImplementedError()\n");
        let mut path = fn_name;
        push_str(&mut path, ".py");
        GeneratedCode { file_path: path, content: out, language: "python".to_owned() }
    }
}

impl TypeScriptGenerator {
    /// The interface of an interface contract, in `<name>.ts`.
    pub fn generate_interface(&self, interface: &InterfaceContract) -> (files: Vec<GeneratedCode>)
        ensures
            files@.len() == 1,
            files@[0].file_path@ == snake(interface.name@) + ".ts"@,
            files@[0].content@ == ts_interface_text(*interface),
            files@[0].language@ == "typescript"@,
    {
        let mut out = "/**\n".to_owned();
        push_opt(&mut out, &interface.description, " * ", "\n");
        push_str(&mut out, " */\n");
        push_str(&mut out, "export interface ");
        let name = to_pascal_case(interface.name.as_str());
        push_str(&mut out, name.as_str());
        push_str(&mut out, " {\n");
        push_methods(&mut out, Target::TypeScript, &interface.methods);
        push_str(&mut out, "}\n");
        let mut path = to_snake_case(interface.name.as_str());
        push_str(&mut path, ".ts");
        one_file(path, out, "typescript")
    }

    /// The class of a class contract, in `<name>.ts`.
    pub fn generate_class(&self, class: &ClassContract) -> (files: Vec<GeneratedCode>)
        ensures
            files@.len() == 1,
            files@[0].file_path@ == snake(class.name@) + ".ts"@,
            files@[0].content@ == ts_class_text(*class),
            files@[0].language@ == "typescript"@,
    {
        let name = to_pascal_case(class.name.as_str());
        let mut out = "/**\n".to_owned();
        push_opt(&mut out, &class.description, " * ", "\n");
        push_str(&mut out, " */\n");
        push_str(&mut out, "export class ");
        push_str(&mut out, name.as_str());
        let impls = names_for(NameStyle::Pascal, name.as_str(), &class.implements);
        if impls.len() > 0 {
            push_str(&mut out, " implements ");
            let joined = join_strings(&impls, ", ");
            push_str(&mut out, joined.as_str());
        }
        push_str(&mut out, " {\n");
        push_str(&mut out, "  constructor() {}\n");
        push_str(&mut out, "\n  // TODO: Add class methods\n");
        push_str(&mut out, "}\n");
        let mut path = to_snake_case(class.name.as_str());
        push_str(&mut path, ".ts");
        one_file(path, out, "typescript")
    }

    /// The function stub of a function specification, in `<name>.ts`.
    pub fn generate_function(&self, func: &FunctionSpec) -> (file: GeneratedCode)
        ensures
            file.file_path@ == snake(func.name@) + ".ts"@,
            file.content@ == ts_function_text(*func),
            file.language@ == "typescript"@,
    {
        let mut out = "/**\n".to_owned();
        push_opt(&mut out, &func.description, " * ", "\n");
        push_str(&mut out, " */\n");
        push_str(&mut out, "export function ");
        let fn_name = to_camel_case(func.name.as_str());
        push_str(&mut out, fn_name.as_str());
        push_str(&mut out, "(");
        let params = params_for(Target::TypeScript, &func.inputs);
        push_str(&mut out, params.as_str());
        push_str(&mut out, ")");
        let ret = ret_for(Target::TypeScript, &func.outputs);
        if !str_eq(ret.as_str(), "void") {
            push_str(&mut out, ": ");
            push_str(&mut out, ret.as_str());
        }
        push_str(&mut out, " {\n");
        push_opt(&mut out, &func.logic, "  // ", "\n");
        push_str(&mut out, "  throw new Error('Not implemented');\n");
        push_str(&mut out, "}\n");
        let mut path = to_snake_case(func.name.as_str());
        push_str(&mut path, ".ts");
        GeneratedCode { file_path: path, content: out, language: "typescript".to_owned() }
    }
}

impl RustGenerator {
    /// The trait of an interface contract, in `<name>.rs`.
    pub fn generate_interface(&self, interface: &InterfaceContract) -> (files: Vec<GeneratedCode>)
        ensures
            files@.len() == 1,
            files@[0].file_path@ == snake(interface.name@) + ".rs"@,
            files@[0].content@ == rust_interface_text(*interface),
            files@[0].language@ == "rust"@,
    {
        let mut out = String::new();
        push_opt(&mut out, &interface.description, "/// ", "\n");
        push_str(&mut out, "pub trait ");
        let name = to_pascal_case(interface.name.as_str());
        push_str(&mut out, name.as_str());
        push_str(&mut out, " {\n");
        push_methods(&mut out, Target::Rust, &interface.methods);
        push_str(&mut out, "}\n");
        let mut path = to_snake_case(interface.name.as_str());
        push_str(&mut path, ".rs");
        proof {
            assert(Seq::<char>::empty() + opt_line(interface.description, "/// "@, "\n"@) =~= opt_line(
                interface.description,
                "/// "@,
                "\n"@,
            ));
        }
        one_file(path, out, "rust")
    }

    /// The struct, trait impls and constructor of a class contract, in
    /// `<name>.rs`.
    pub fn generate_class(&self, class: &ClassContract) -> (files: Vec<GeneratedCode>)
        ensures
            files@.len() == 1,
            files@[0].file_path@ == snake(class.name@) + ".rs"@,
            files@[0].content@ == rust_class_text(*class),
            files@[0].language@ == "rust"@,
    {
        let name = to_pascal_case(class.name.as_str());
        let mut derives: Vec<String> = Vec::new();
        derives.push("Debug".to_owned());
        derives.push("Clone".to_owned());
        match &class.implements {
            Some(v) => {
                let mut j: usize = 0;
                while j < v.len()
                    invariant
                        j <= v@.len(),
                        string_views(derives@) == seq!["Debug"@, "Clone"@] + string_views(v@.take(j as int)),
                    decreases v@.len() - j,
                {
                    let ghost before = derives@;
                    derives.push(v[j].clone());
                    proof {
                        assert(string_views(derives@) =~= string_views(before).push(v@[j as int]@));
                        assert(string_views(v@.take(j + 1)) =~= string_views(v@.take(j as int)).push(v@[j as int]@));
                    }
                    j += 1;
                }
                assert(v@.take(v@.len() as int) == v@);
            },
            None => {
                assert(string_views(derives@) =~= seq!["Debug"@, "Clone"@] + Seq::<Seq<char>>::empty());
            },
        }
        let mut out = "#[derive(".to_owned();
        let joined = join_strings(&derives, ", ");
        push_str(&mut out, joined.as_str());
        push_str(&mut out, ")]\n");
        push_opt(&mut out, &class.description, "/// ", "\n");
        push_str(&mut out, "pub struct ");
        push_str(&mut out, name.as_str());
        push_str(&mut out, " {\n");
        push_str(&mut out, "    // TODO: Add fields from data model\n");
        push_str(&mut out, "}\n\n");
        let impls = names_for(NameStyle::RustImpl, name.as_str(), &class.implements);
        let impls_text = concat_strings(&impls);
        push_str(&mut out, impls_text.as_str());
        push_str(&mut out, "impl ");
        push_str(&mut out, name.as_str());
        push_str(&mut out, " {\n");
        push_str(&mut out, "    pub fn new() -> Self {\n");
        push_str(&mut out, "        Self { }\n    }\n}\n");
        let mut path = to_snake_case(class.name.as_str());
        push_str(&mut path, ".rs");
        one_file(path, out, "rust")
    }

    /// The function stub of a function specification, in `<name>.rs`.
    pub fn generate_function(&self, func: &FunctionSpec) -> (file: GeneratedCode)
        ensures
            file.file_path@ == snake(func.name@) + ".rs"@,
            file.content@ == rust_function_text(*func),
            file.language@ == "rust"@,
    {
        let mut out = String::new();
        push_opt(&mut out, &func.description, "/// ", "\n");
        push_str(&mut out, "pub fn ");
        let fn_name = to_snake_case(func.name.as_str());
        push_str(&mut out, fn_name.as_str());
        push_str(&mut out, "(");
        let params = params_for(Target::Rust, &func.inputs);
        push_str(&mut out, params.as_str());
        push_str(&mut out, ") -> ");
        let ret = ret_for(Target::Rust, &func.outputs);
        push_str(&mut out, ret.as_str());
        push_str(&mut out, " {\n");
        push_opt(&mut out, &func.logic, "    // ", "\n");
        push_str(&mut out, "    todo!()\n}\n");
        let mut path = fn_name;
        push_str(&mut path, ".rs");
        proof {
            assert(Seq::<char>::empty() + opt_line(func.description, "/// "@, "\n"@) =~= opt_line(
                func.description,
                "/// "@,
                "\n"@,
            ));
        }
        GeneratedCode { file_path: path, content: out, language: "rust".to_owned() }
    }
}

} // verus!
