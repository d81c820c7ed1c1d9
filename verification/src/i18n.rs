//! Internationalisation: the available languages, flattening of a nested
//! locale into dot-separated keys, and lookup of translations with a
//! fallback to English and then to the key itself.

use vstd::prelude::*;
use crate::text::{chars_of, contains, lowercase, push_str, replace, str_eq, string_of, to_lowercase, usize_to_string, decimal, replace_all};

verus! {

/// Available languages.
#[derive(Debug, Clone, Copy, PartialEq, Eq)]
pub enum Lang {
    /// English.
    En,
    /// Chinese (Simplified).
    ZhCn,
}

/// The language a code names: any code containing `zh`, or `chinese`, in
/// any case, is Chinese; everything else is English.
pub open spec fn lang_of(code: Seq<char>) -> Lang {
    let l = lowercase(code);
    if crate::text::contains_seq(l, "zh"@) || l == "chinese"@ {
        Lang::ZhCn
    } else {
        Lang::En
    }
}

impl Lang {
    /// Parses a language code (see `lang_of`).
    pub fn from_str(s: &str) -> (l: Lang)
        ensures
            l == lang_of(s@),
    {
        let lower = to_lowercase(s);
        let lc = chars_of(lower.as_str());
        let zh = chars_of("zh");
        if contains(lc.as_slice(), zh.as_slice()) || str_eq(lower.as_str(), "chinese") {
            Lang::ZhCn
        } else {
            Lang::En
        }
    }

    /// All available languages.
    pub fn all() -> (v: Vec<Lang>)
        ensures
            v@ == seq![Lang::En, Lang::ZhCn],
    {
        let mut v: Vec<Lang> = Vec::new();
        v.push(Lang::En);
        v.push(Lang::ZhCn);
        assert(v@ =~= seq![Lang::En, Lang::ZhCn]);
        v
    }

    /// The language's name in the language itself.
    pub fn display_name(self) -> (s: &'static str)
        ensures
            s@ == match self {
                Lang::En => "English"@,
                Lang::ZhCn => "\u{4e2d}\u{6587}"@,
            },
    {
        match self {
            Lang::En => "English",
            Lang::ZhCn => "\u{4e2d}\u{6587}",
        }
    }
}

/// A node of a nested locale: an object of named children, a text, or any
/// other value in its JSON rendering.
#[derive(Debug)]
pub enum LocaleValue {
    Object(Vec<(String, LocaleValue)>),
    Text(String),
    Other(String),
}

/// The key of a child under a prefix: the child's name alone at top level,
/// else the prefix, a dot and the name.
pub open spec fn child_key(prefix: Seq<char>, name: Seq<char>) -> Seq<char> {
    if prefix.len() == 0 { name } else { prefix + "."@ + name }
}

/// The flattened entries of a locale value under a key prefix, in order: a
/// text or other value gives one entry at the prefix, an object the entries
/// of its children under their keys.
pub open spec fn flatten_spec(v: LocaleValue, prefix: Seq<char>) -> Seq<(Seq<char>, Seq<char>)>
    decreases v,
{
    match v {
        LocaleValue::Object(children) => flatten_children(children@, prefix),
        LocaleValue::Text(s) => seq![(prefix, s@)],
        LocaleValue::Other(s) => seq![(prefix, s@)],
    }
}

/// The flattened entries of an object's children, in order.
pub open spec fn flatten_children(children: Seq<(String, LocaleValue)>, prefix: Seq<char>) -> Seq<(Seq<char>, Seq<char>)>
    decreases children,
{
    if children.len() == 0 {
        Seq::empty()
    } else {
        let last = children.last();
        flatten_children(children.drop_last(), prefix) + flatten_spec(last.1, child_key(prefix, last.0@))
    }
}

/// The (key, text) views of flattened entries.
pub open spec fn entry_views(v: Seq<(String, String)>) -> Seq<(Seq<char>, Seq<char>)> {
    v.map_values(|p: (String, String)| (p.0@, p.1@))
}

fn child_key_of(prefix: &str, name: &str) -> (k: String)
    ensures
        k@ == child_key(prefix@, name@),
{
    if chars_of(prefix).len() == 0 {
        name.to_owned()
    } else {
        let mut k = prefix.to_owned();
        push_str(&mut k, ".");
        push_str(&mut k, name);
        k
    }
}

/// Flattens a nested locale value into dot-separated keys (see
/// `flatten_spec`).
pub fn flatten_value(value: &LocaleValue, prefix: &str) -> (r: Vec<(String, String)>)
    ensures
        entry_views(r@) == flatten_spec(*value, prefix@),
    decreases value,
{
    match value {
        LocaleValue::Text(s) => {
            let mut r: Vec<(String, String)> = Vec::new();
            r.push((prefix.to_owned(), s.clone()));
            assert(entry_views(r@) =~= seq![(prefix@, s@)]);
            r
        },
        LocaleValue::Other(s) => {
            let mut r: Vec<(String, String)> = Vec::new();
            r.push((prefix.to_owned(), s.clone()));
            assert(entry_views(r@) =~= seq![(prefix@, s@)]);
            r
        },
        LocaleValue::Object(children) => {
            let mut r: Vec<(String, String)> = Vec::new();
            let mut i: usize = 0;
            while i < children.len()
                invariant
                    i <= children@.len(),
                    *value == LocaleValue::Object(*children),
                    entry_views(r@) == flatten_children(children@.take(i as int), prefix@),
                decreases children@.len() - i,
            {
                let key = child_key_of(prefix, children[i].0.as_str());
                proof {
                    assert(decreases_to!(*value => (*value)->Object_0));
                    assert((*value)->Object_0 == *children);
                    assert(decreases_to!(*children => children@));
                    assert(decreases_to!(children@ => children@[i as int]));
                    assert(decreases_to!(children@[i as int] => children@[i as int].1));
                    assert(decreases_to!(*value => children@[i as int].1));
                }
                let sub = flatten_value(&children[i].1, key.as_str());
                let ghost before = r@;
                let mut j: usize = 0;
                while j < sub.len()
                    invariant
                        j <= sub@.len(),
                        entry_views(r@) == entry_views(before) + entry_views(sub@.take(j as int)),
                    decreases sub@.len() - j,
                {
                    let ghost pre_r = r@;
                    r.push((sub[j].0.clone(), sub[j].1.clone()));
                    proof {
                        assert(entry_views(r@) =~= entry_views(pre_r).push((sub@[j as int].0@, sub@[j as int].1@)));
                        assert(entry_views(sub@.take(j + 1)) =~= entry_views(sub@.take(j as int)).push(
                            (sub@[j as int].0@, sub@[j as int].1@),
                        ));
                        assert(entry_views(r@) =~= entry_views(before) + entry_views(sub@.take(j + 1)));
                    }
                    j += 1;
                }
                proof {
                    assert(sub@.take(sub@.len() as int) == sub@);
                    let pre = children@.take(i + 1);
                    assert(pre.drop_last() == children@.take(i as int));
                    assert(pre.last() == children@[i as int]);
                }
                i += 1;
            }
            assert(children@.take(children@.len() as int) == children@);
            r
        },
    }
}

/// The text of the last entry with the key, if any.
pub open spec fn last_text(entries: Seq<(Seq<char>, Seq<char>)>, key: Seq<char>) -> Option<Seq<char>>
    decreases entries.len(),
{
    if entries.len() == 0 {
        None
    } else if entries.last().0 == key {
        Some(entries.last().1)
    } else {
        last_text(entries.drop_last(), key)
    }
}

fn find_last(entries: &Vec<(String, String)>, key: &str) -> (r: Option<String>)
    ensures
        match (r, last_text(entry_views(entries@), key@)) {
            (Some(a), Some(b)) => a@ == b,
            (None, None) => true,
            _ => false,
        },
{
    let mut i: usize = entries.len();
    assert(entries@.take(entries@.len() as int) == entries@);
    while i > 0
        invariant
            i <= entries@.len(),
            last_text(entry_views(entries@), key@) == last_text(entry_views(entries@.take(i as int)), key@),
        decreases i,
    {
        proof {
            assert(entry_views(entries@.take(i as int)).drop_last() =~= entry_views(entries@.take(i - 1)));
            assert(entry_views(entries@.take(i as int)).last() == (entries@[i - 1].0@, entries@[i - 1].1@));
        }
        if str_eq(entries[i - 1].0.as_str(), key) {
            return Some(entries[i - 1].1.clone());
        }
        i -= 1;
    }
    None
}

/// Resolves translation keys to localized texts.
#[derive(Debug, Clone)]
pub struct Translator {
    lang: Lang,
    map: Vec<(String, String)>,
    english: Vec<(String, String)>,
}

/// The translation of a key: the locale's text, else the English one, else
/// the key itself.
pub open spec fn translation(map: Seq<(Seq<char>, Seq<char>)>, english: Seq<(Seq<char>, Seq<char>)>, key: Seq<char>) -> Seq<char> {
    match last_text(map, key) {
        Some(t) => t,
        None => match last_text(english, key) {
            Some(t) => t,
            None => key,
        },
    }
}

/// A text with the placeholders `{0}`, `{1}`, ... replaced by the arguments
/// in turn.
pub open spec fn with_args(text: Seq<char>, args: Seq<Seq<char>>) -> Seq<char>
    decreases args.len(),
{
    if args.len() == 0 {
        text
    } else {
        replace_all(
            with_args(text, args.drop_last()),
            "{"@ + decimal((args.len() - 1) as nat) + "}"@,
            args.last(),
        )
    }
}

impl Translator {
    /// A translator for a language from its nested locale and the English one.
    pub fn new(lang: Lang, locale: &LocaleValue, english: &LocaleValue) -> (t: Self)
        ensures
            t.language() == lang,
            t.entries() == flatten_spec(*locale, Seq::empty()),
            t.english_entries() == flatten_spec(*english, Seq::empty()),
    {
        let map = flatten_value(locale, "");
        let en = flatten_value(english, "");
        proof {
            reveal_strlit("");
            assert(""@ =~= Seq::<char>::empty());
        }
        Translator { lang, map, english: en }
    }

    /// The language, in specifications.
    pub closed spec fn language(&self) -> Lang {
        self.lang
    }

    /// The flattened locale, in specifications.
    pub closed spec fn entries(&self) -> Seq<(Seq<char>, Seq<char>)> {
        entry_views(self.map@)
    }

    /// The flattened English locale, in specifications.
    pub closed spec fn english_entries(&self) -> Seq<(Seq<char>, Seq<char>)> {
        entry_views(self.english@)
    }

    /// The current language.
    pub fn lang(&self) -> (l: Lang)
        ensures
            l == self.language(),
    {
        self.lang
    }

    /// Translates a dot-separated key (see `translation`).
    pub fn translate(&self, key: &str) -> (s: String)
        ensures
            s@ == translation(self.entries(), self.english_entries(), key@),
    {
        match find_last(&self.map, key) {
            Some(t) => t,
            None => match find_last(&self.english, key) {
                Some(t) => t,
                None => key.to_owned(),
            },
        }
    }

    /// Translates a key and fills its positional placeholders with the
    /// arguments (see `with_args`).
    pub fn translate_with_args(&self, key: &str, args: &[String]) -> (s: String)
        ensures
            s@ == with_args(
                translation(self.entries(), self.english_entries(), key@),
                args@.map_values(|a: String| a@),
            ),
    {
        let t = self.translate(key);
        let mut cur = chars_of(t.as_str());
        let mut i: usize = 0;
        while i < args.len()
            invariant
                i <= args@.len(),
                cur@ == with_args(t@, args@.take(i as int).map_values(|a: String| a@)),
            decreases args@.len() - i,
        {
            let mut pat = "{".to_owned();
            let n = usize_to_string(i);
            push_str(&mut pat, n.as_str());
            push_str(&mut pat, "}");
            let p = chars_of(pat.as_str());
            let a = chars_of(args[i].as_str());
            proof {
                reveal_strlit("{");
                assert(p@.len() > 0);
                let views = args@.take(i + 1).map_values(|a: String| a@);
                assert(views.drop_last() =~= args@.take(i as int).map_values(|a: String| a@));
                assert(views.last() == args@[i as int]@);
            }
            cur = replace(cur.as_slice(), p.as_slice(), a.as_slice());
            i += 1;
        }
        proof {
            assert(args@.take(args@.len() as int) == args@);
        }
        string_of(cur.as_slice())
    }
}

} // verus!
