//! Conflict detection between parallel agents: symbol collisions (agents
//! proposing different names for the same `sdef://` URI), interface
//! mismatches and file overlaps (agents writing the same output file), and
//! their automatic resolution where one is possible.

use vstd::prelude::*;
use crate::text::{decimal, join_seqs, join_strings, push_str, string_views, usize_to_string};

verus! {

/// A detected conflict between agents.
#[derive(Debug)]
pub enum Conflict {
    /// Agents proposed different concrete names for the same `sdef://` URI;
    /// `proposals` holds (agent id, proposed name) pairs.
    SymbolCollision { uri: String, proposals: Vec<(String, String)> },
    /// Signatures generated by different agents for a contract disagree.
    InterfaceMismatch { contract: String, signatures: Vec<SignatureConflict> },
    /// Several agents write the same file path.
    FileOverlap { path: String, sources: Vec<String> },
}

/// Details of a single interface signature mismatch.
#[derive(Debug)]
pub struct SignatureConflict {
    pub method_name: String,
    pub signature_a: String,
    pub agent_a: String,
    pub signature_b: String,
    pub agent_b: String,
}

/// Resolution strategy for a conflict.
#[derive(Debug)]
pub enum Resolution {
    /// The later (higher version) submission wins.
    LatestWins,
    /// A numeric suffix disambiguates the name.
    SuffixDisambiguation(String),
    /// Manual intervention required: the conflict goes to the orchestrator.
    EscalateToOrchestrator(Conflict),
}

impl Clone for SignatureConflict {
    fn clone(&self) -> (r: Self)
        ensures
            r == *self,
    {
        SignatureConflict {
            method_name: self.method_name.clone(),
            signature_a: self.signature_a.clone(),
            agent_a: self.agent_a.clone(),
            signature_b: self.signature_b.clone(),
            agent_b: self.agent_b.clone(),
        }
    }
}

fn clone_pairs(v: &Vec<(String, String)>) -> (r: Vec<(String, String)>)
    ensures
        r@ == v@,
{
    let mut r: Vec<(String, String)> = Vec::new();
    let mut i: usize = 0;
    while i < v.len()
        invariant
            i <= v@.len(),
            r@ == v@.take(i as int),
        decreases v@.len() - i,
    {
        r.push((v[i].0.clone(), v[i].1.clone()));
        assert(v@.take(i + 1) == v@.take(i as int).push(v@[i as int]));
        i += 1;
    }
    assert(v@.take(v@.len() as int) == v@);
    r
}

fn clone_signatures(v: &Vec<SignatureConflict>) -> (r: Vec<SignatureConflict>)
    ensures
        r@ == v@,
{
    let mut r: Vec<SignatureConflict> = Vec::new();
    let mut i: usize = 0;
    while i < v.len()
        invariant
            i <= v@.len(),
            r@ == v@.take(i as int),
        decreases v@.len() - i,
    {
        r.push(v[i].clone());
        assert(v@.take(i + 1) == v@.take(i as int).push(v@[i as int]));
        i += 1;
    }
    assert(v@.take(v@.len() as int) == v@);
    r
}

fn clone_strings(v: &Vec<String>) -> (r: Vec<String>)
    ensures
        r@ == v@,
{
    let mut r: Vec<String> = Vec::new();
    let mut i: usize = 0;
    while i < v.len()
        invariant
            i <= v@.len(),
            r@ == v@.take(i as int),
        decreases v@.len() - i,
    {
        r.push(v[i].clone());
        assert(v@.take(i + 1) == v@.take(i as int).push(v@[i as int]));
        i += 1;
    }
    assert(v@.take(v@.len() as int) == v@);
    r
}

/// Two conflicts of the same kind with the same contents.
pub open spec fn same_conflict(a: Conflict, b: Conflict) -> bool {
    match (a, b) {
        (
            Conflict::SymbolCollision { uri: u1, proposals: p1 },
            Conflict::SymbolCollision { uri: u2, proposals: p2 },
        ) => u1 == u2 && p1@ == p2@,
        (
            Conflict::InterfaceMismatch { contract: c1, signatures: s1 },
            Conflict::InterfaceMismatch { contract: c2, signatures: s2 },
        ) => c1 == c2 && s1@ == s2@,
        (
            Conflict::FileOverlap { path: p1, sources: s1 },
            Conflict::FileOverlap { path: p2, sources: s2 },
        ) => p1 == p2 && s1@ == s2@,
        _ => false,
    }
}

impl Clone for Conflict {
    fn clone(&self) -> (r: Self)
        ensures
            same_conflict(r, *self),
    {
        match self {
            Conflict::SymbolCollision { uri, proposals } => Conflict::SymbolCollision {
                uri: uri.clone(),
                proposals: clone_pairs(proposals),
            },
            Conflict::InterfaceMismatch { contract, signatures } => Conflict::InterfaceMismatch {
                contract: contract.clone(),
                signatures: clone_signatures(signatures),
            },
            Conflict::FileOverlap { path, sources } => Conflict::FileOverlap {
                path: path.clone(),
                sources: clone_strings(sources),
            },
        }
    }
}

/// "`name` from `agent`" for each proposal.
pub open spec fn proposal_texts(p: Seq<(String, String)>) -> Seq<Seq<char>> {
    p.map_values(|x: (String, String)| x.1@ + " from "@ + x.0@)
}

/// "`contract`.`method`: `a` vs `b`" for each signature mismatch.
pub open spec fn signature_texts(contract: Seq<char>, s: Seq<SignatureConflict>) -> Seq<Seq<char>> {
    s.map_values(
        |x: SignatureConflict| contract + "."@ + x.method_name@ + ": "@ + x.signature_a@ + " vs "@ + x.signature_b@,
    )
}

/// Human-readable description of a conflict.
pub open spec fn conflict_text(c: Conflict) -> Seq<char> {
    match c {
        Conflict::SymbolCollision { uri, proposals } => "Symbol collision for "@ + uri@
            + ": conflicting names \u{2014} "@ + join_seqs(proposal_texts(proposals@), ", "@),
        Conflict::InterfaceMismatch { contract, signatures } => "Interface mismatch in contract '"@
            + contract@ + "': "@ + join_seqs(signature_texts(contract@, signatures@), "; "@),
        Conflict::FileOverlap { path, sources } => "File overlap at "@ + path@
            + ": produced by agents "@ + join_seqs(string_views(sources@), ", "@),
    }
}

impl Conflict {
    /// A human-readable description of the conflict.
    pub fn description(&self) -> (s: String)
        ensures
            s@ == conflict_text(*self),
    {
        match self {
            Conflict::SymbolCollision { uri, proposals } => {
                let mut names: Vec<String> = Vec::new();
                let mut i: usize = 0;
                while i < proposals.len()
                    invariant
                        i <= proposals@.len(),
                        string_views(names@) == proposal_texts(proposals@).take(i as int),
                    decreases proposals@.len() - i,
                {
                    let mut t = proposals[i].1.clone();
                    push_str(&mut t, " from ");
                    push_str(&mut t, proposals[i].0.as_str());
                    let ghost before = names@;
                    names.push(t);
                    proof {
                        assert(string_views(names@) =~= string_views(before).push(t@));
                        assert(proposal_texts(proposals@).take(i + 1) =~= proposal_texts(proposals@).take(
                            i as int,
                        ).push(proposal_texts(proposals@)[i as int]));
                    }
                    i += 1;
                }
                proof {
                    assert(proposal_texts(proposals@).take(proposals@.len() as int) =~= proposal_texts(proposals@));
                }
                let mut s = String::new();
                push_str(&mut s, "Symbol collision for ");
                push_str(&mut s, uri.as_str());
                push_str(&mut s, ": conflicting names \u{2014} ");
                let joined = join_strings(&names, ", ");
                push_str(&mut s, joined.as_str());
                s
            },
            Conflict::InterfaceMismatch { contract, signatures } => {
                let mut details: Vec<String> = Vec::new();
                let mut i: usize = 0;
                while i < signatures.len()
                    invariant
                        i <= signatures@.len(),
                        string_views(details@) == signature_texts(contract@, signatures@).take(i as int),
                    decreases signatures@.len() - i,
                {
                    let sig = &signatures[i];
                    let mut t = contract.clone();
                    push_str(&mut t, ".");
                    push_str(&mut t, sig.method_name.as_str());
                    push_str(&mut t, ": ");
                    push_str(&mut t, sig.signature_a.as_str());
                    push_str(&mut t, " vs ");
                    push_str(&mut t, sig.signature_b.as_str());
                    let ghost before = details@;
                    details.push(t);
                    proof {
                        assert(string_views(details@) =~= string_views(before).push(t@));
                        assert(signature_texts(contract@, signatures@).take(i + 1) =~= signature_texts(
                            contract@,
                            signatures@,
                        ).take(i as int).push(signature_texts(contract@, signatures@)[i as int]));
                    }
                    i += 1;
                }
                proof {
                    assert(signature_texts(contract@, signatures@).take(signatures@.len() as int)
                        =~= signature_texts(contract@, signatures@));
                }
                let mut s = String::new();
                push_str(&mut s, "Interface mismatch in contract '");
                push_str(&mut s, contract.as_str());
                push_str(&mut s, "': ");
                let joined = join_strings(&details, "; ");
                push_str(&mut s, joined.as_str());
                s
            },
            Conflict::FileOverlap { path, sources } => {
                let mut s = String::new();
                push_str(&mut s, "File overlap at ");
                push_str(&mut s, path.as_str());
                push_str(&mut s, ": produced by agents ");
                let joined = join_strings(sources, ", ");
                push_str(&mut s, joined.as_str());
                s
            },
        }
    }
}

/// Whether `r` is the resolution a conflict gets: a symbol collision with at
/// least one proposal takes the first proposed name suffixed with `_` and
/// the number of proposals; a file overlap goes to the latest writer;
/// anything else is escalated unchanged.
pub open spec fn resolves_as(r: Resolution, c: Conflict) -> bool {
    match c {
        Conflict::SymbolCollision { uri, proposals } => if proposals@.len() > 0 {
            r matches Resolution::SuffixDisambiguation(name)
                && name@ == proposals@[0].1@ + "_"@ + decimal(proposals@.len())
        } else {
            r matches Resolution::EscalateToOrchestrator(e) && same_conflict(e, c)
        },
        Conflict::InterfaceMismatch { .. } => r matches Resolution::EscalateToOrchestrator(e)
            && same_conflict(e, c),
        Conflict::FileOverlap { .. } => r is LatestWins,
    }
}

/// Conflict detector for multi-agent workspaces.
#[derive(Debug, Clone, Copy)]
pub struct ConflictDetector {}

impl ConflictDetector {
    /// A new conflict detector.
    pub fn new() -> (d: Self) {
        ConflictDetector {}
    }

    /// Interface mismatch detection needs code-level comparison of generated
    /// signatures, which is not done: no mismatch is ever reported.
    pub fn detect_interface_mismatches(&self, document_name: &str) -> (r: Option<Vec<Conflict>>)
        ensures
            r is None,
    {
        None
    }

    /// The proposals of a symbol collision: the names registered for one
    /// URI, labelled `agent-0`, `agent-1`, ... in row order.
    pub fn collision_proposals(names: &Vec<String>) -> (r: Vec<(String, String)>)
        ensures
            r@.len() == names@.len(),
            forall|i: int| 0 <= i < names@.len() ==> {
                &&& (#[trigger] r@[i]).0@ == "agent-"@ + decimal(i as nat)
                &&& r@[i].1@ == names@[i]@
            },
    {
        let mut r: Vec<(String, String)> = Vec::new();
        let mut i: usize = 0;
        while i < names.len()
            invariant
                i <= names@.len(),
                r@.len() == i,
                forall|k: int| 0 <= k < i ==> {
                    &&& (#[trigger] r@[k]).0@ == "agent-"@ + decimal(k as nat)
                    &&& r@[k].1@ == names@[k]@
                },
            decreases names@.len() - i,
        {
            let mut agent = String::new();
            push_str(&mut agent, "agent-");
            let n = usize_to_string(i);
            push_str(&mut agent, n.as_str());
            r.push((agent, names[i].clone()));
            i += 1;
        }
        r
    }

    /// File overlap conflicts for the paths claimed by more than one shard;
    /// `None` when there is none. The agents behind a path are not known and
    /// are reported as `unknown`.
    pub fn file_overlaps(paths: Vec<String>) -> (r: Option<Vec<Conflict>>)
        ensures
            paths@.len() == 0 <==> r is None,
            r matches Some(cs) ==> cs@.len() == paths@.len() && forall|i: int| 0 <= i < paths@.len() ==> {
                &&& (#[trigger] cs@[i]) matches Conflict::FileOverlap { path, sources }
                &&& path == paths@[i]
                &&& sources@.len() == 1
                &&& sources@[0]@ == "unknown"@
            },
    {
        if paths.len() == 0 {
            return None;
        }
        let mut cs: Vec<Conflict> = Vec::new();
        let mut i: usize = 0;
        while i < paths.len()
            invariant
                i <= paths@.len(),
                cs@.len() == i,
                forall|k: int| 0 <= k < i ==> {
                    &&& (#[trigger] cs@[k]) matches Conflict::FileOverlap { path, sources }
                    &&& path == paths@[k]
                    &&& sources@.len() == 1
                    &&& sources@[0]@ == "unknown"@
                },
            decreases paths@.len() - i,
        {
            let mut sources: Vec<String> = Vec::new();
            sources.push("unknown".to_owned());
            cs.push(Conflict::FileOverlap { path: paths[i].clone(), sources });
            i += 1;
        }
        Some(cs)
    }

    /// Resolves conflicts automatically where a rule applies (see
    /// `resolution_for`), pairing each conflict with its resolution.
    pub fn auto_resolve(&self, conflicts: &[Conflict]) -> (r: Vec<(Conflict, Resolution)>)
        ensures
            r@.len() == conflicts@.len(),
            forall|i: int| 0 <= i < conflicts@.len() ==> {
                &&& same_conflict((#[trigger] r@[i]).0, conflicts@[i])
                &&& resolves_as(r@[i].1, conflicts@[i])
            },
    {
        let mut out: Vec<(Conflict, Resolution)> = Vec::new();
        let mut i: usize = 0;
        while i < conflicts.len()
            invariant
                i <= conflicts@.len(),
                out@.len() == i,
                forall|k: int| 0 <= k < i ==> {
                    &&& same_conflict((#[trigger] out@[k]).0, conflicts@[k])
                    &&& resolves_as(out@[k].1, conflicts@[k])
                },
            decreases conflicts@.len() - i,
        {
            let conflict = &conflicts[i];
            let resolution = match conflict {
                Conflict::SymbolCollision { uri: _, proposals } => {
                    if proposals.len() > 0 {
                        let mut name = proposals[0].1.clone();
                        push_str(&mut name, "_");
                        let n = usize_to_string(proposals.len());
                        push_str(&mut name, n.as_str());
                        Resolution::SuffixDisambiguation(name)
                    } else {
                        Resolution::EscalateToOrchestrator(conflict.clone())
                    }
                },
                Conflict::InterfaceMismatch { .. } => Resolution::EscalateToOrchestrator(conflict.clone()),
                Conflict::FileOverlap { .. } => Resolution::LatestWins,
            };
            out.push((conflict.clone(), resolution));
            i += 1;
        }
        out
    }
}

} // verus!
