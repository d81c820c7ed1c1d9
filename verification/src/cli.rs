//! Command-line surface: the subcommands and the text formatting of
//! human-readable output.

use vstd::prelude::*;
use crate::text::{join_seqs, push_char, push_str, string_views};

verus! {

/// The subcommands of the command-line tool.
#[derive(Debug, Clone)]
pub enum Commands {
    /// Analyze a code repository and output S.DEF.
    Produce { repo: String, output: String, exclude: Option<String>, name: Option<String> },
    /// Read S.DEF and generate code.
    Consume {
        sdef: String,
        output: String,
        language: String,
        framework: Option<String>,
        compat_mode: String,
        fidelity: String,
    },
    /// Serve the MCP tools over a transport.
    Serve { transport: String },
    /// Resume a workflow.
    Resume { workflow_id: String },
    /// Inspect database or S.DEF state.
    Inspect { check_type: String },
    /// Run a database migration.
    Migrate { direction: String },
}

/// `n` spaces.
pub open spec fn spaces(n: nat) -> Seq<char> {
    Seq::new(n, |i: int| ' ')
}

/// A key-value line: the key left-aligned in a 30-character column after
/// two spaces, then a space and the value.
pub open spec fn kv_line(key: Seq<char>, value: Seq<char>) -> Seq<char> {
    let pad = if key.len() < 30 { (30 - key.len()) as nat } else { 0 };
    "  "@ + key + spaces(pad) + " "@ + value
}

/// Formats a key-value pair for human-readable output.
pub fn format_kv(key: &str, value: &str) -> (s: String)
    ensures
        s@ == kv_line(key@, value@),
{
    let mut s = String::new();
    push_str(&mut s, "  ");
    push_str(&mut s, key);
    let n = crate::text::chars_of(key).len();
    let mut i: usize = n;
    let ghost base = s@;
    while i < 30
        invariant
            n == key@.len(),
            n <= i <= 30 || (n > 30 && i == n),
            s@ == base + spaces((i - n) as nat),
        decreases 30 - i,
    {
        let ghost before = s@;
        push_char(&mut s, ' ');
        proof {
            assert(spaces((i + 1 - n) as nat) =~= spaces((i - n) as nat).push(' '));
        }
        i += 1;
    }
    proof {
        let pad = if key@.len() < 30 { (30 - key@.len()) as nat } else { 0 };
        if n >= 30 {
            assert(spaces(0) =~= Seq::<char>::empty());
        }
        assert(s@ == "  "@ + key@ + spaces(pad));
    }
    push_str(&mut s, " ");
    push_str(&mut s, value);
    s
}

/// A section header line, after a line break.
pub open spec fn section_line(title: Seq<char>) -> Seq<char> {
    "\n\u{2500}\u{2500}\u{2500} "@ + title + " \u{2500}\u{2500}\u{2500}"@
}

/// Formats a section header.
pub fn format_section(title: &str) -> (s: String)
    ensures
        s@ == section_line(title@),
{
    let mut s = String::new();
    push_str(&mut s, "\n\u{2500}\u{2500}\u{2500} ");
    push_str(&mut s, title);
    push_str(&mut s, " \u{2500}\u{2500}\u{2500}");
    s
}

/// The bulleted lines of a list.
pub open spec fn bullet_lines(items: Seq<Seq<char>>) -> Seq<Seq<char>> {
    items.map_values(|x: Seq<char>| "    \u{2022} "@ + x)
}

/// Lists items one per line, indented under a bullet.
pub fn format_list(items: &[String]) -> (s: String)
    ensures
        s@ == join_seqs(bullet_lines(string_views(items@)), "\n"@),
{
    let mut lines: Vec<String> = Vec::new();
    let mut i: usize = 0;
    while i < items.len()
        invariant
            i <= items@.len(),
            string_views(lines@) == bullet_lines(string_views(items@)).take(i as int),
        decreases items@.len() - i,
    {
        let mut line = String::new();
        push_str(&mut line, "    \u{2022} ");
        push_str(&mut line, items[i].as_str());
        let ghost before = lines@;
        lines.push(line);
        proof {
            assert(string_views(lines@) =~= string_views(before).push(line@));
            assert(bullet_lines(string_views(items@)).take(i + 1) =~= bullet_lines(string_views(items@)).take(
                i as int,
            ).push(bullet_lines(string_views(items@))[i as int]));
        }
        i += 1;
    }
    proof {
        assert(bullet_lines(string_views(items@)).take(items@.len() as int) =~= bullet_lines(string_views(items@)));
    }
    crate::text::join_strings(&lines, "\n")
}

} // verus!
