//! Naming conventions: PascalCase, camelCase and snake_case renderings of
//! names, the splitting of a PascalCase name into words, language-specific
//! entity names, and the types each target language uses for S.DEF types.

use vstd::prelude::*;
use crate::text::{chars_of, lowercase, push_char, push_str, str_eq, string_of, string_views, to_lowercase, join_seqs};

verus! {

/// Whether a character is alphanumeric (Unicode `Alphabetic` or `Numeric`).
pub uninterp spec fn alnum(c: char) -> bool;

/// Whether a character has the Unicode `Uppercase` property.
pub uninterp spec fn upper(c: char) -> bool;

/// Whether a character has the Unicode `Lowercase` property.
pub uninterp spec fn lower(c: char) -> bool;

/// The uppercase mapping of a character (one to three characters).
pub uninterp spec fn upper_of(c: char) -> Seq<char>;

/// std `char::is_alphanumeric`.
#[verifier::external_body]
fn is_alphanumeric(c: char) -> (r: bool)
    ensures
        r == alnum(c),
{
    c.is_alphanumeric()
}

/// std `char::is_uppercase`.
#[verifier::external_body]
fn is_uppercase(c: char) -> (r: bool)
    ensures
        r == upper(c),
{
    c.is_uppercase()
}

/// std `char::is_lowercase`.
#[verifier::external_body]
fn is_lowercase(c: char) -> (r: bool)
    ensures
        r == lower(c),
{
    c.is_lowercase()
}

/// std `char::to_uppercase`, collected.
#[verifier::external_body]
fn uppercase_of(c: char) -> (r: String)
    ensures
        r@ == upper_of(c),
{
    c.to_uppercase().collect()
}

/// ASCII lowercase of a character (other characters unchanged).
pub open spec fn ascii_lower(c: char) -> char {
    if 'A' <= c && c <= 'Z' { ((c as u8) + 32) as char } else { c }
}

fn to_ascii_lowercase(c: char) -> (r: char)
    ensures
        r == ascii_lower(c),
{
    if 'A' <= c && c <= 'Z' {
        ((c as u8) + 32) as char
    } else {
        c
    }
}

/// The parts of a text between separator characters (`_` or `-`), empty
/// parts included, as `str::split` gives them.
pub open spec fn split_parts(s: Seq<char>) -> Seq<Seq<char>>
    decreases s.len(),
{
    if s.len() == 0 {
        seq![Seq::empty()]
    } else {
        let r = split_parts(s.drop_last());
        let c = s.last();
        if c == '_' || c == '-' {
            r.push(Seq::empty())
        } else {
            r.update(r.len() - 1, r.last().push(c))
        }
    }
}

/// A word with its first character uppercased.
pub open spec fn capitalized(w: Seq<char>) -> Seq<char> {
    if w.len() == 0 { Seq::empty() } else { upper_of(w[0]) + w.skip(1) }
}

/// The concatenation of some texts.
pub open spec fn concat(parts: Seq<Seq<char>>) -> Seq<char> {
    parts.flatten()
}

/// PascalCase: the `_`/`-` separated parts, each capitalized, joined.
pub open spec fn pascal(s: Seq<char>) -> Seq<char> {
    concat(split_parts(s).map_values(|w: Seq<char>| capitalized(w)))
}

/// snake_case: an underscore before every uppercase character but the
/// first, and ASCII letters lowercased.
pub open spec fn snake(s: Seq<char>) -> Seq<char>
    decreases s.len(),
{
    if s.len() == 0 {
        Seq::empty()
    } else {
        let c = s.last();
        let pre = snake(s.drop_last());
        if upper(c) && s.len() > 1 {
            pre.push('_').push(ascii_lower(c))
        } else {
            pre.push(ascii_lower(c))
        }
    }
}

/// camelCase: the first part lowercased, the others capitalized.
pub open spec fn camel(s: Seq<char>) -> Seq<char> {
    let parts = split_parts(s);
    lowercase(parts[0]) + concat(parts.skip(1).map_values(|w: Seq<char>| pascal(w)))
}

fn split_on_separators(s: &str) -> (parts: Vec<Vec<char>>)
    ensures
        parts@.map_values(|p: Vec<char>| p@) == split_parts(s@),
{
    let chars = chars_of(s);
    let mut parts: Vec<Vec<char>> = Vec::new();
    parts.push(Vec::new());
    let mut i: usize = 0;
    while i < chars.len()
        invariant
            chars@ == s@,
            i <= chars@.len(),
            parts@.len() >= 1,
            parts@.map_values(|p: Vec<char>| p@) == split_parts(s@.take(i as int)),
        decreases chars@.len() - i,
    {
        let c = chars[i];
        let ghost before = parts@.map_values(|p: Vec<char>| p@);
        proof {
            assert(s@.take(i + 1).drop_last() == s@.take(i as int));
            assert(s@.take(i + 1).last() == c);
        }
        if c == '_' || c == '-' {
            parts.push(Vec::new());
            proof {
                assert(parts@.map_values(|p: Vec<char>| p@) =~= before.push(Seq::empty()));
            }
        } else {
            let last = parts.len() - 1;
            let mut cur = parts[last].clone();
            cur.push(c);
            let ghost cv = cur@;
            parts.set(last, cur);
            proof {
                assert(cv == before[last as int].push(c));
                assert(parts@.map_values(|p: Vec<char>| p@) =~= before.update(last as int, before.last().push(c)));
            }
        }
        i += 1;
    }
    proof {
        assert(s@.take(s@.len() as int) == s@);
    }
    parts
}

fn capitalize(w: &Vec<char>) -> (r: Vec<char>)
    ensures
        r@ == capitalized(w@),
{
    if w.len() == 0 {
        return Vec::new();
    }
    let up = uppercase_of(w[0]);
    let mut r = chars_of(up.as_str());
    let mut j: usize = 1;
    while j < w.len()
        invariant
            1 <= j <= w@.len(),
            r@ == upper_of(w@[0]) + w@.subrange(1, j as int),
        decreases w@.len() - j,
    {
        r.push(w[j]);
        assert(w@.subrange(1, j + 1) == w@.subrange(1, j as int).push(w@[j as int]));
        j += 1;
    }
    assert(w@.subrange(1, w@.len() as int) == w@.skip(1));
    r
}

fn concat_chars(parts: &Vec<Vec<char>>) -> (r: Vec<char>)
    ensures
        r@ == concat(parts@.map_values(|p: Vec<char>| p@)),
{
    let mut r: Vec<char> = Vec::new();
    let mut i: usize = 0;
    while i < parts.len()
        invariant
            i <= parts@.len(),
            r@ == concat(parts@.take(i as int).map_values(|p: Vec<char>| p@)),
        decreases parts@.len() - i,
    {
        let ghost before = parts@.take(i as int).map_values(|p: Vec<char>| p@);
        crate::text::extend_chars(&mut r, parts[i].as_slice());
        proof {
            let after = parts@.take(i + 1).map_values(|p: Vec<char>| p@);
            assert(after =~= before.push(parts@[i as int]@));
            before.lemma_flatten_push(parts@[i as int]@);
        }
        i += 1;
    }
    assert(parts@.take(parts@.len() as int) == parts@);
    r
}

/// PascalCase rendering of a name (see `pascal`).
pub fn to_pascal_case(s: &str) -> (r: String)
    ensures
        r@ == pascal(s@),
{
    let parts = split_on_separators(s);
    let mut caps: Vec<Vec<char>> = Vec::new();
    let mut i: usize = 0;
    while i < parts.len()
        invariant
            i <= parts@.len(),
            caps@.map_values(|p: Vec<char>| p@) == parts@.take(i as int).map_values(|p: Vec<char>| capitalized(p@)),
        decreases parts@.len() - i,
    {
        let c = capitalize(&parts[i]);
        let ghost before = caps@.map_values(|p: Vec<char>| p@);
        caps.push(c);
        proof {
            assert(caps@.map_values(|p: Vec<char>| p@) =~= before.push(capitalized(parts@[i as int]@)));
            assert(parts@.take(i + 1).map_values(|p: Vec<char>| capitalized(p@)) =~= parts@.take(i as int).map_values(
                |p: Vec<char>| capitalized(p@),
            ).push(capitalized(parts@[i as int]@)));
        }
        i += 1;
    }
    proof {
        assert(parts@.take(parts@.len() as int) == parts@);
        let pv = parts@.map_values(|p: Vec<char>| p@);
        assert(pv.map_values(|w: Seq<char>| capitalized(w)) =~= parts@.map_values(|p: Vec<char>| capitalized(p@)));
    }
    let r = concat_chars(&caps);
    string_of(r.as_slice())
}

/// snake_case rendering of a name (see `snake`).
pub fn to_snake_case(s: &str) -> (r: String)
    ensures
        r@ == snake(s@),
{
    let chars = chars_of(s);
    let mut r = String::new();
    let mut i: usize = 0;
    while i < chars.len()
        invariant
            chars@ == s@,
            i <= chars@.len(),
            r@ == snake(s@.take(i as int)),
        decreases chars@.len() - i,
    {
        let c = chars[i];
        proof {
            assert(s@.take(i + 1).drop_last() == s@.take(i as int));
            assert(s@.take(i + 1).last() == c);
        }
        if is_uppercase(c) && i > 0 {
            push_char(&mut r, '_');
        }
        push_char(&mut r, to_ascii_lowercase(c));
        i += 1;
    }
    proof {
        assert(s@.take(s@.len() as int) == s@);
    }
    r
}

/// camelCase rendering of a name (see `camel`).
pub fn to_camel_case(s: &str) -> (r: String)
    ensures
        r@ == camel(s@),
{
    let parts = split_on_separators(s);
    let ghost pv = parts@.map_values(|p: Vec<char>| p@);
    assert(pv.len() >= 1) by {
        lemma_split_parts_nonempty(s@);
    }
    let first = string_of(parts[0].as_slice());
    let mut r = to_lowercase(first.as_str());
    let mut i: usize = 1;
    while i < parts.len()
        invariant
            1 <= i <= parts@.len(),
            pv == parts@.map_values(|p: Vec<char>| p@),
            r@ == lowercase(pv[0]) + concat(pv.subrange(1, i as int).map_values(|w: Seq<char>| pascal(w))),
        decreases parts@.len() - i,
    {
        let word = string_of(parts[i].as_slice());
        let p = to_pascal_case(word.as_str());
        let ghost before = r@;
        push_str(&mut r, p.as_str());
        proof {
            let prev = pv.subrange(1, i as int).map_values(|w: Seq<char>| pascal(w));
            let next = pv.subrange(1, i + 1).map_values(|w: Seq<char>| pascal(w));
            assert(next =~= prev.push(pascal(pv[i as int])));
            prev.lemma_flatten_push(pascal(pv[i as int]));
        }
        i += 1;
    }
    assert(pv.subrange(1, pv.len() as int) == pv.skip(1));
    r
}

proof fn lemma_split_parts_nonempty(s: Seq<char>)
    ensures
        split_parts(s).len() >= 1,
    decreases s.len(),
{
    if s.len() > 0 {
        lemma_split_parts_nonempty(s.drop_last());
    }
}

/// The table of S.DEF types: which lowercased type names map to which
/// entry (0: string-like, 1: 32-bit integer, 2: 64-bit integer, 3: float,
/// 4: boolean, 5: uuid, 6: timestamp, 7: date, 8: json, 9: bytes, 10: any,
/// 11: anything else).
pub open spec fn type_class(t: Seq<char>) -> nat {
    let l = lowercase(t);
    if l == "string"@ || l == "text"@ || l == "varchar"@ {
        0
    } else if l == "integer"@ || l == "int"@ || l == "int32"@ {
        1
    } else if l == "int64"@ || l == "bigint"@ {
        2
    } else if l == "float"@ || l == "decimal"@ || l == "double"@ {
        3
    } else if l == "boolean"@ || l == "bool"@ {
        4
    } else if l == "uuid"@ {
        5
    } else if l == "timestamp"@ || l == "datetime"@ {
        6
    } else if l == "date"@ {
        7
    } else if l == "json"@ || l == "jsonb"@ {
        8
    } else if l == "bytes"@ || l == "bytea"@ {
        9
    } else if l == "any"@ {
        10
    } else {
        11
    }
}

fn classify_type(t: &str) -> (k: u8)
    ensures
        k == type_class(t@),
{
    let lower = to_lowercase(t);
    let l = lower.as_str();
    if str_eq(l, "string") || str_eq(l, "text") || str_eq(l, "varchar") {
        0
    } else if str_eq(l, "integer") || str_eq(l, "int") || str_eq(l, "int32") {
        1
    } else if str_eq(l, "int64") || str_eq(l, "bigint") {
        2
    } else if str_eq(l, "float") || str_eq(l, "decimal") || str_eq(l, "double") {
        3
    } else if str_eq(l, "boolean") || str_eq(l, "bool") {
        4
    } else if str_eq(l, "uuid") {
        5
    } else if str_eq(l, "timestamp") || str_eq(l, "datetime") {
        6
    } else if str_eq(l, "date") {
        7
    } else if str_eq(l, "json") || str_eq(l, "jsonb") {
        8
    } else if str_eq(l, "bytes") || str_eq(l, "bytea") {
        9
    } else if str_eq(l, "any") {
        10
    } else {
        11
    }
}

/// The Python type of each entry of the S.DEF type table.
pub open spec fn python_type_name(k: nat) -> Seq<char> {
    if k == 0 { "str"@ } else if k == 1 || k == 2 { "int"@ } else if k == 3 { "float"@ }
    else if k == 4 { "bool"@ } else if k == 5 { "str"@ } else if k == 6 { "datetime"@ }
    else if k == 7 { "date"@ } else if k == 9 { "bytes"@ } else { "object"@ }
}

/// The TypeScript type of each entry of the S.DEF type table.
pub open spec fn ts_type_name(k: nat) -> Seq<char> {
    if k == 0 { "string"@ } else if k == 1 { "number"@ } else if k == 2 { "bigint"@ }
    else if k == 3 { "number"@ } else if k == 4 { "boolean"@ } else if k == 5 { "string"@ }
    else if k == 6 || k == 7 { "Date"@ } else if k == 9 { "Uint8Array"@ } else { "any"@ }
}

/// The Rust type of each entry of the S.DEF type table.
pub open spec fn rust_type_name(k: nat) -> Seq<char> {
    if k == 0 { "String"@ } else if k == 1 { "i32"@ } else if k == 2 { "i64"@ }
    else if k == 3 { "f64"@ } else if k == 4 { "bool"@ } else if k == 5 { "uuid::Uuid"@ }
    else if k == 6 { "chrono::DateTime<chrono::Utc>"@ } else if k == 7 { "chrono::NaiveDate"@ }
    else if k == 8 || k == 10 { "serde_json::Value"@ } else if k == 9 { "Vec<u8>"@ } else { "String"@ }
}

/// The Python type for an S.DEF type.
pub fn python_type(sdef_type: &str, required: bool) -> (r: String)
    ensures
        r@ == python_type_name(type_class(sdef_type@)),
{
    let k = classify_type(sdef_type);
    let s = if k == 0 { "str" } else if k == 1 || k == 2 { "int" } else if k == 3 { "float" }
    else if k == 4 { "bool" } else if k == 5 { "str" } else if k == 6 { "datetime" }
    else if k == 7 { "date" } else if k == 9 { "bytes" } else { "object" };
    s.to_owned()
}

/// The TypeScript type for an S.DEF type.
pub fn ts_type(sdef_type: &str, required: bool) -> (r: String)
    ensures
        r@ == ts_type_name(type_class(sdef_type@)),
{
    let k = classify_type(sdef_type);
    let s = if k == 0 { "string" } else if k == 1 { "number" } else if k == 2 { "bigint" }
    else if k == 3 { "number" } else if k == 4 { "boolean" } else if k == 5 { "string" }
    else if k == 6 || k == 7 { "Date" } else if k == 9 { "Uint8Array" } else { "any" };
    s.to_owned()
}

/// The Rust type for an S.DEF type: optional ones wrapped in `Option`.
pub fn rust_type(sdef_type: &str, required: bool) -> (r: String)
    ensures
        r@ == if required {
            rust_type_name(type_class(sdef_type@))
        } else {
            "Option<"@ + rust_type_name(type_class(sdef_type@)) + ">"@
        },
{
    let k = classify_type(sdef_type);
    let base = if k == 0 { "String" } else if k == 1 { "i32" } else if k == 2 { "i64" }
    else if k == 3 { "f64" } else if k == 4 { "bool" } else if k == 5 { "uuid::Uuid" }
    else if k == 6 { "chrono::DateTime<chrono::Utc>" } else if k == 7 { "chrono::NaiveDate" }
    else if k == 8 || k == 10 { "serde_json::Value" } else if k == 9 { "Vec<u8>" } else { "String" };
    if required {
        base.to_owned()
    } else {
        let mut s = "Option<".to_owned();
        push_str(&mut s, base);
        push_str(&mut s, ">");
        s
    }
}

/// The maximal runs of alphanumeric characters of a text, in order.
pub open spec fn alnum_segments(s: Seq<char>) -> Seq<Seq<char>> {
    split_runs(s).filter(|p: Seq<char>| p.len() > 0)
}

/// The parts of a text between non-alphanumeric characters, empty parts
/// included.
pub open spec fn split_runs(s: Seq<char>) -> Seq<Seq<char>>
    decreases s.len(),
{
    if s.len() == 0 {
        seq![Seq::empty()]
    } else {
        let r = split_runs(s.drop_last());
        let c = s.last();
        if !alnum(c) {
            r.push(Seq::empty())
        } else {
            r.update(r.len() - 1, r.last().push(c))
        }
    }
}

/// Position `i` of a segment starts a new word: an uppercase character,
/// not the first, followed by a lowercase one.
pub open spec fn word_start(seg: Seq<char>, i: int) -> bool {
    0 < i && i + 1 < seg.len() && upper(seg[i]) && lower(seg[i + 1])
}

/// The word starts among the first `n` positions of a segment, in order.
pub open spec fn word_starts(seg: Seq<char>, n: int) -> Seq<int>
    decreases n,
{
    if n <= 0 {
        Seq::empty()
    } else if word_start(seg, n - 1) {
        word_starts(seg, n - 1).push(n - 1)
    } else {
        word_starts(seg, n - 1)
    }
}

/// The pieces of a segment between consecutive cut positions, the first
/// starting at 0: `cuts[k]` to `cuts[k + 1]`, the last one up to `end`.
pub open spec fn pieces(seg: Seq<char>, cuts: Seq<int>, end: int) -> Seq<Seq<char>> {
    let b = seq![0int] + cuts + seq![end];
    Seq::new(cuts.len() + 1, |k: int| seg.subrange(b[k], b[k + 1]))
}

/// The words of a segment: it cut before every word start (none for an
/// empty segment).
pub open spec fn segment_words_of(seg: Seq<char>) -> Seq<Seq<char>> {
    if seg.len() == 0 {
        Seq::empty()
    } else {
        pieces(seg, word_starts(seg, seg.len() as int), seg.len() as int)
    }
}

/// The words of a PascalCase name: each alphanumeric segment cut before
/// every uppercase character that starts a lowercase run.
pub open spec fn pascal_words(s: Seq<char>) -> Seq<Seq<char>> {
    alnum_segments(s).map_values(|seg: Seq<char>| segment_words_of(seg)).flatten()
}

fn split_alnum(s: &str) -> (parts: Vec<Vec<char>>)
    ensures
        parts@.map_values(|p: Vec<char>| p@) == split_runs(s@),
{
    let chars = chars_of(s);
    let mut parts: Vec<Vec<char>> = Vec::new();
    parts.push(Vec::new());
    let mut i: usize = 0;
    while i < chars.len()
        invariant
            chars@ == s@,
            i <= chars@.len(),
            parts@.len() >= 1,
            parts@.map_values(|p: Vec<char>| p@) == split_runs(s@.take(i as int)),
        decreases chars@.len() - i,
    {
        let c = chars[i];
        let ghost before = parts@.map_values(|p: Vec<char>| p@);
        proof {
            assert(s@.take(i + 1).drop_last() == s@.take(i as int));
            assert(s@.take(i + 1).last() == c);
        }
        if !is_alphanumeric(c) {
            parts.push(Vec::new());
            proof {
                assert(parts@.map_values(|p: Vec<char>| p@) =~= before.push(Seq::empty()));
            }
        } else {
            let last = parts.len() - 1;
            let mut cur = parts[last].clone();
            cur.push(c);
            let ghost cv = cur@;
            parts.set(last, cur);
            proof {
                assert(cv == before[last as int].push(c));
                assert(parts@.map_values(|p: Vec<char>| p@) =~= before.update(last as int, before.last().push(c)));
            }
        }
        i += 1;
    }
    proof {
        assert(s@.take(s@.len() as int) == s@);
    }
    parts
}

fn segment_words(seg: &Vec<char>) -> (words: Vec<String>)
    ensures
        string_views(words@) == segment_words_of(seg@),
{
    let mut words: Vec<String> = Vec::new();
    let mut current: Vec<char> = Vec::new();
    if seg.len() == 0 {
        assert(string_views(words@) =~= Seq::<Seq<char>>::empty());
        return words;
    }
    let ghost s = seg@;
    let mut last: usize = 0;
    let mut i: usize = 0;
    assert(string_views(words@) =~= Seq::<Seq<char>>::empty());
    assert(current@ =~= s.subrange(0, 0));
    while i < seg.len()
        invariant
            s == seg@,
            s.len() > 0,
            i <= s.len(),
            last <= i,
            i > 0 ==> last < i,
            word_starts(s, i as int).len() == 0 ==> last == 0,
            word_starts(s, i as int).len() > 0 ==> last == word_starts(s, i as int).last(),
            current@ == s.subrange(last as int, i as int),
            string_views(words@) =~= Seq::new(
                word_starts(s, i as int).len(),
                |k: int| s.subrange((seq![0int] + word_starts(s, i as int))[k], (seq![0int] + word_starts(s, i as int))[k + 1]),
            ),
        decreases s.len() - i,
    {
        let c = seg[i];
        let ghost ws = word_starts(s, i as int);
        let ghost wv = string_views(words@);
        if current.len() > 0 && is_uppercase(c) && i + 1 < seg.len() && is_lowercase(seg[i + 1]) {
            assert(word_start(s, i as int));
            assert(word_starts(s, i + 1) == ws.push(i as int));
            words.push(string_of(current.as_slice()));
            proof {
                let b0 = seq![0int] + ws;
                let b1 = seq![0int] + ws.push(i as int);
                assert(b1 =~= b0.push(i as int));
                assert(b0[ws.len() as int] == last);
                assert(string_views(words@) =~= wv.push(s.subrange(last as int, i as int)));
                assert(string_views(words@) =~= Seq::new(
                    ws.len() + 1,
                    |k: int| s.subrange(b1[k], b1[k + 1]),
                ));
            }
            current = Vec::new();
            current.push(c);
            last = i;
            assert(current@ =~= s.subrange(i as int, i + 1));
        } else {
            assert(!word_start(s, i as int)) by {
                if i > 0 {
                    assert(current@.len() > 0);
                }
            }
            assert(word_starts(s, i + 1) == ws);
            current.push(c);
            assert(current@ =~= s.subrange(last as int, i + 1));
        }
        i += 1;
    }
    let ghost ws = word_starts(s, s.len() as int);
    let ghost wv = string_views(words@);
    words.push(string_of(current.as_slice()));
    proof {
        let b0 = seq![0int] + ws;
        let b = seq![0int] + ws + seq![s.len() as int];
        assert(b0[ws.len() as int] == last);
        assert forall|k: int| 0 <= k < ws.len() + 1 implies b[k] == b0[k] by {}
        assert(b[ws.len() as int + 1] == s.len());
        assert(string_views(words@) =~= wv.push(s.subrange(last as int, s.len() as int)));
        assert(string_views(words@) =~= pieces(s, ws, s.len() as int));
    }
    words
}

/// Splits a PascalCase name into words (see `pascal_words`).
pub fn split_pascal_case(s: &str) -> (words: Vec<String>)
    ensures
        string_views(words@) == pascal_words(s@),
{
    let parts = split_alnum(s);
    let ghost runs = parts@.map_values(|p: Vec<char>| p@);
    let ghost keep = |p: Seq<char>| p.len() > 0;
    let ghost f = |seg: Seq<char>| segment_words_of(seg);
    let mut words: Vec<String> = Vec::new();
    let mut i: usize = 0;
    while i < parts.len()
        invariant
            i <= parts@.len(),
            runs == parts@.map_values(|p: Vec<char>| p@),
            keep == (|p: Seq<char>| p.len() > 0),
            f == (|seg: Seq<char>| segment_words_of(seg)),
            string_views(words@) == runs.take(i as int).filter(keep).map_values(f).flatten(),
        decreases parts@.len() - i,
    {
        proof {
            assert(runs.take(i + 1).drop_last() == runs.take(i as int));
            assert(runs.take(i + 1).last() == parts@[i as int]@);
            reveal_with_fuel(Seq::filter, 1);
        }
        let ghost before = words@;
        if parts[i].len() > 0 {
            let ws = segment_words(&parts[i]);
            let mut j: usize = 0;
            while j < ws.len()
                invariant
                    j <= ws@.len(),
                    string_views(words@) == string_views(before) + string_views(ws@.take(j as int)),
                decreases ws@.len() - j,
            {
                let ghost wb = words@;
                words.push(ws[j].clone());
                proof {
                    assert(string_views(words@) =~= string_views(wb).push(ws@[j as int]@));
                    assert(string_views(ws@.take(j + 1)) =~= string_views(ws@.take(j as int)).push(ws@[j as int]@));
                }
                j += 1;
            }
            proof {
                assert(ws@.take(ws@.len() as int) == ws@);
                let kept_before = runs.take(i as int).filter(keep);
                let kept_after = runs.take(i + 1).filter(keep);
                assert(kept_after == kept_before.push(parts@[i as int]@));
                assert(kept_after.map_values(f) =~= kept_before.map_values(f).push(f(parts@[i as int]@)));
                kept_before.map_values(f).lemma_flatten_push(f(parts@[i as int]@));
            }
        }
        i += 1;
    }
    proof {
        assert(runs.take(runs.len() as int) == runs);
    }
    words
}

/// The name an entity gets in a language: words lowercased and joined with
/// `_` for Rust, C and Python; the first word lowercased and the others as
/// they are for TypeScript and JavaScript; the words joined for Go, Java
/// and C#; the entity itself otherwise.
pub open spec fn entity_name_in(entity: Seq<char>, lang: Seq<char>) -> Seq<char> {
    let words = pascal_words(entity);
    if lang == "rust"@ || lang == "c"@ || lang == "python"@ {
        join_seqs(words.map_values(|w: Seq<char>| lowercase(w)), "_"@)
    } else if lang == "typescript"@ || lang == "javascript"@ {
        if words.len() == 0 { Seq::empty() } else { lowercase(words[0]) + concat(words.skip(1)) }
    } else if lang == "go"@ || lang == "java"@ || lang == "csharp"@ {
        concat(words)
    } else {
        entity
    }
}

/// Converts an entity name to a language's naming convention (see
/// `entity_name_in`).
pub fn convert_entity_name(entity: &str, lang: &str) -> (r: String)
    ensures
        r@ == entity_name_in(entity@, lang@),
{
    let words = split_pascal_case(entity);
    let ghost wv = string_views(words@);
    if str_eq(lang, "rust") || str_eq(lang, "c") || str_eq(lang, "python") {
        let mut lowered: Vec<String> = Vec::new();
        let mut i: usize = 0;
        while i < words.len()
            invariant
                i <= words@.len(),
                wv == string_views(words@),
                string_views(lowered@) == wv.take(i as int).map_values(|w: Seq<char>| lowercase(w)),
            decreases words@.len() - i,
        {
            let l = to_lowercase(words[i].as_str());
            let ghost lb = lowered@;
            lowered.push(l);
            proof {
                assert(string_views(lowered@) =~= string_views(lb).push(lowercase(words@[i as int]@)));
                assert(wv.take(i + 1).map_values(|w: Seq<char>| lowercase(w)) =~= wv.take(i as int).map_values(
                    |w: Seq<char>| lowercase(w),
                ).push(lowercase(wv[i as int])));
            }
            i += 1;
        }
        assert(wv.take(wv.len() as int) == wv);
        crate::text::join_strings(&lowered, "_")
    } else if str_eq(lang, "typescript") || str_eq(lang, "javascript") {
        let mut r = String::new();
        let mut i: usize = 0;
        while i < words.len()
            invariant
                i <= words@.len(),
                wv == string_views(words@),
                i == 0 ==> r@ == Seq::<char>::empty(),
                i > 0 ==> r@ == lowercase(wv[0]) + concat(wv.subrange(1, i as int)),
            decreases words@.len() - i,
        {
            if i == 0 {
                let l = to_lowercase(words[i].as_str());
                push_str(&mut r, l.as_str());
                proof {
                    assert(wv.subrange(1, 1) =~= Seq::<Seq<char>>::empty());
                }
            } else {
                push_str(&mut r, words[i].as_str());
                proof {
                    assert(wv.subrange(1, i + 1) =~= wv.subrange(1, i as int).push(wv[i as int]));
                    wv.subrange(1, i as int).lemma_flatten_push(wv[i as int]);
                }
            }
            i += 1;
        }
        if words.len() > 0 {
            assert(wv.subrange(1, wv.len() as int) == wv.skip(1));
        }
        r
    } else if str_eq(lang, "go") || str_eq(lang, "java") || str_eq(lang, "csharp") {
        let mut r = String::new();
        let mut i: usize = 0;
        while i < words.len()
            invariant
                i <= words@.len(),
                wv == string_views(words@),
                r@ == concat(wv.take(i as int)),
            decreases words@.len() - i,
        {
            push_str(&mut r, words[i].as_str());
            proof {
                assert(wv.take(i + 1) =~= wv.take(i as int).push(wv[i as int]));
                wv.take(i as int).lemma_flatten_push(wv[i as int]);
            }
            i += 1;
        }
        assert(wv.take(wv.len() as int) == wv);
        r
    } else {
        entity.to_owned()
    }
}

/// A symbol an imported entity is registered under: its S.DEF URI, a
/// language and the entity's name in that language.
#[derive(Debug, Clone)]
pub struct SymbolRegistration {
    pub sdef_uri: String,
    pub language: String,
    pub concrete_name: String,
}

/// The languages an imported entity is registered for, in order.
pub open spec fn registration_languages() -> Seq<Seq<char>> {
    seq!["rust"@, "typescript"@, "python"@, "go"@, "c"@]
}

/// The URI of an entity of a document.
pub open spec fn entity_uri(document_name: Seq<char>, entity: Seq<char>) -> Seq<char> {
    "sdef://"@ + document_name + "/entity/"@ + entity
}

fn registration(document_name: &str, entity: &str, lang: &str) -> (r: SymbolRegistration)
    ensures
        r.sdef_uri@ == entity_uri(document_name@, entity@),
        r.language@ == lang@,
        r.concrete_name@ == entity_name_in(entity@, lang@),
{
    let mut uri = "sdef://".to_owned();
    push_str(&mut uri, document_name);
    push_str(&mut uri, "/entity/");
    push_str(&mut uri, entity);
    SymbolRegistration {
        sdef_uri: uri,
        language: lang.to_owned(),
        concrete_name: convert_entity_name(entity, lang),
    }
}

/// The symbols an entity of an imported document is registered under: one
/// per registration language, in order, each named by the language's
/// convention (see `entity_name_in`).
pub fn entity_symbols(document_name: &str, entity: &str) -> (r: Vec<SymbolRegistration>)
    ensures
        r@.len() == registration_languages().len(),
        forall|k: int|
            0 <= k < r@.len() ==> {
                &&& (#[trigger] r@[k]).sdef_uri@ == entity_uri(document_name@, entity@)
                &&& r@[k].language@ == registration_languages()[k]
                &&& r@[k].concrete_name@ == entity_name_in(entity@, registration_languages()[k])
            },
{
    let mut r: Vec<SymbolRegistration> = Vec::new();
    r.push(registration(document_name, entity, "rust"));
    r.push(registration(document_name, entity, "typescript"));
    r.push(registration(document_name, entity, "python"));
    r.push(registration(document_name, entity, "go"));
    r.push(registration(document_name, entity, "c"));
    r
}

} // verus!

