//! The language server pool's bookkeeping: which configuration serves a
//! language, which servers run, when each was last used, and the decisions
//! of starting, reusing, refusing and retiring servers. The processes
//! themselves are the caller's: it starts one when told to and drops the
//! ones the pool retires.

use vstd::prelude::*;
use crate::lsp::{config_view, default_configs, default_lsp_configs, LspConfig};
use crate::text::{decimal, push_str, str_eq, string_views, usize_to_string};

verus! {

/// The view of a configuration: language, command, arguments, extensions
/// and idle timeout in seconds.
pub type ConfigView = (Seq<char>, Seq<char>, Seq<Seq<char>>, Seq<Seq<char>>, u64);

/// The view of a running server: language, last use (ms) and idle timeout
/// (seconds).
pub type ServerView = (Seq<char>, nat, nat);

/// A running server's bookkeeping.
#[derive(Debug, Clone)]
pub struct RunningServer {
    pub language: String,
    /// When it was last used, in milliseconds on the caller's clock.
    pub last_used_ms: u64,
    /// How long it may stay unused, in seconds.
    pub idle_timeout_secs: u64,
}

/// Why no server can be had for a language.
#[derive(Debug, Clone)]
pub enum LspPoolError {
    /// The concurrent server limit is reached.
    ServerNotAvailable(String),
    /// No configuration serves the language.
    UnsupportedLanguage(String),
}

/// What the caller does to get a language's server.
#[derive(Debug, Clone)]
pub enum ServerAccess {
    /// Use the running server (now marked as used).
    Running,
    /// Start a server with this configuration (now recorded as running).
    Start(LspConfig),
}

/// Server pool bookkeeping for several language servers.
#[derive(Debug)]
pub struct LspServerPool {
    configs: Vec<LspConfig>,
    servers: Vec<RunningServer>,
    max_concurrent: usize,
}

/// The view of a running server.
pub open spec fn server_view(s: RunningServer) -> ServerView {
    (s.language@, s.last_used_ms as nat, s.idle_timeout_secs as nat)
}

/// The position of the first entry for a language (the length when none).
pub open spec fn key_index<V>(s: Seq<(Seq<char>, V)>, key: Seq<char>) -> nat
    decreases s.len(),
{
    if s.len() == 0 {
        0
    } else if s[0].0 == key {
        0
    } else {
        1 + key_index(s.drop_first(), key)
    }
}

/// The position of the first configuration for a language.
pub open spec fn config_index(s: Seq<ConfigView>, key: Seq<char>) -> nat
    decreases s.len(),
{
    if s.len() == 0 {
        0
    } else if s[0].0 == key {
        0
    } else {
        1 + config_index(s.drop_first(), key)
    }
}

/// The position of the first running server of a language.
pub open spec fn server_index(s: Seq<ServerView>, key: Seq<char>) -> nat
    decreases s.len(),
{
    if s.len() == 0 {
        0
    } else if s[0].0 == key {
        0
    } else {
        1 + server_index(s.drop_first(), key)
    }
}

/// The configurations after one is registered: it replaces the one of its
/// language, or is added last.
pub open spec fn with_config(s: Seq<ConfigView>, c: ConfigView) -> Seq<ConfigView> {
    let i = config_index(s, c.0);
    if i < s.len() {
        s.update(i as int, c)
    } else {
        s.push(c)
    }
}

/// The configurations registered one after another.
pub open spec fn registered(s: Seq<ConfigView>) -> Seq<ConfigView>
    decreases s.len(),
{
    if s.len() == 0 {
        Seq::empty()
    } else {
        with_config(registered(s.drop_last()), s.last())
    }
}

/// Whether a server is idle at `now`: unused for at least its timeout
/// (no time has passed when `now` is earlier than its last use).
pub open spec fn is_idle(s: ServerView, now: nat) -> bool {
    let elapsed = if now >= s.1 { (now - s.1) as nat } else { 0 };
    elapsed >= s.2 * 1000
}

/// The servers not idle at `now`, in order.
pub open spec fn live_servers(s: Seq<ServerView>, now: nat) -> Seq<ServerView> {
    s.filter(|v: ServerView| !is_idle(v, now))
}

/// The servers idle at `now`, in order.
pub open spec fn idle_servers(s: Seq<ServerView>, now: nat) -> Seq<ServerView> {
    s.filter(|v: ServerView| is_idle(v, now))
}

/// The message when the concurrent limit is reached.
pub open spec fn limit_message(max: nat) -> Seq<char> {
    "Max concurrent servers ("@ + decimal(max) + ") reached"@
}

/// Whether the languages of some entries are distinct.
pub open spec fn distinct_languages(s: Seq<Seq<char>>) -> bool {
    s.no_duplicates()
}

proof fn lemma_config_index(s: Seq<ConfigView>, key: Seq<char>)
    ensures
        config_index(s, key) <= s.len(),
        config_index(s, key) < s.len() ==> s[config_index(s, key) as int].0 == key,
        config_index(s, key) == s.len() ==> forall|k: int| 0 <= k < s.len() ==> s[k].0 != key,
    decreases s.len(),
{
    if s.len() > 0 && s[0].0 != key {
        lemma_config_index(s.drop_first(), key);
        assert forall|k: int| 0 <= k < s.len() && config_index(s, key) == s.len() implies s[k].0 != key by {
            if k > 0 {
                assert(s[k] == s.drop_first()[k - 1]);
            }
        }
    }
}

proof fn lemma_server_index(s: Seq<ServerView>, key: Seq<char>)
    ensures
        server_index(s, key) <= s.len(),
        server_index(s, key) < s.len() ==> s[server_index(s, key) as int].0 == key,
        server_index(s, key) == s.len() ==> forall|k: int| 0 <= k < s.len() ==> s[k].0 != key,
    decreases s.len(),
{
    if s.len() > 0 && s[0].0 != key {
        lemma_server_index(s.drop_first(), key);
        assert forall|k: int| 0 <= k < s.len() && server_index(s, key) == s.len() implies s[k].0 != key by {
            if k > 0 {
                assert(s[k] == s.drop_first()[k - 1]);
            }
        }
    }
}

/// The languages of some configurations.
pub open spec fn config_languages(s: Seq<ConfigView>) -> Seq<Seq<char>> {
    s.map_values(|c: ConfigView| c.0)
}

/// The languages of some servers.
pub open spec fn server_languages(s: Seq<ServerView>) -> Seq<Seq<char>> {
    s.map_values(|v: ServerView| v.0)
}

proof fn lemma_with_config_distinct(s: Seq<ConfigView>, c: ConfigView)
    requires
        config_languages(s).no_duplicates(),
    ensures
        config_languages(with_config(s, c)).no_duplicates(),
{
    lemma_config_index(s, c.0);
    let r = with_config(s, c);
    assert forall|a: int, b: int| 0 <= a < b < r.len() implies config_languages(r)[a] != config_languages(r)[b] by {
        assert(config_languages(r)[a] == r[a].0);
        assert(config_languages(r)[b] == r[b].0);
        if config_index(s, c.0) < s.len() {
            assert(config_languages(s)[a] == s[a].0);
            assert(config_languages(s)[b] == s[b].0);
        } else if b < s.len() {
            assert(config_languages(s)[a] == s[a].0);
            assert(config_languages(s)[b] == s[b].0);
        }
    }
}

proof fn lemma_config_index_absent(s: Seq<ConfigView>, key: Seq<char>)
    requires
        forall|k: int| 0 <= k < s.len() ==> s[k].0 != key,
    ensures
        config_index(s, key) == s.len(),
    decreases s.len(),
{
    if s.len() > 0 {
        assert forall|k: int| 0 <= k < s.drop_first().len() implies s.drop_first()[k].0 != key by {
            assert(s.drop_first()[k] == s[k + 1]);
        }
        lemma_config_index_absent(s.drop_first(), key);
    }
}

/// Registering configurations of distinct languages keeps them as they are.
proof fn lemma_registered_distinct_keeps(s: Seq<ConfigView>)
    requires
        config_languages(s).no_duplicates(),
    ensures
        registered(s) == s,
    decreases s.len(),
{
    if s.len() > 0 {
        let d = s.drop_last();
        assert(config_languages(d).no_duplicates()) by {
            assert forall|x: int, y: int| 0 <= x < y < d.len() implies config_languages(d)[x] != config_languages(d)[y] by {
                assert(config_languages(s)[x] == s[x].0);
                assert(config_languages(s)[y] == s[y].0);
            }
        }
        lemma_registered_distinct_keeps(d);
        assert forall|k: int| 0 <= k < d.len() implies d[k].0 != s.last().0 by {
            assert(config_languages(s)[k] == s[k].0);
            assert(config_languages(s)[s.len() - 1] == s.last().0);
        }
        lemma_config_index_absent(d, s.last().0);
        assert(d.push(s.last()) =~= s);
    } else {
        assert(registered(s) =~= s);
    }
}

proof fn lemma_registered_distinct(s: Seq<ConfigView>)
    ensures
        config_languages(registered(s)).no_duplicates(),
    decreases s.len(),
{
    if s.len() > 0 {
        lemma_registered_distinct(s.drop_last());
        lemma_with_config_distinct(registered(s.drop_last()), s.last());
    } else {
        assert(config_languages(Seq::<ConfigView>::empty()) =~= Seq::<Seq<char>>::empty());
    }
}

fn clone_strings(v: &Vec<String>) -> (r: Vec<String>)
    ensures
        string_views(r@) == string_views(v@),
{
    let mut r: Vec<String> = Vec::new();
    let mut i: usize = 0;
    while i < v.len()
        invariant
            i <= v@.len(),
            string_views(r@) == string_views(v@.take(i as int)),
        decreases v@.len() - i,
    {
        let ghost before = r@;
        r.push(v[i].clone());
        proof {
            assert(string_views(r@) =~= string_views(before).push(v@[i as int]@));
            assert(string_views(v@.take(i + 1)) =~= string_views(v@.take(i as int)).push(v@[i as int]@));
        }
        i += 1;
    }
    assert(v@.take(v@.len() as int) == v@);
    r
}

fn clone_config(c: &LspConfig) -> (r: LspConfig)
    ensures
        config_view(r) == config_view(*c),
{
    LspConfig {
        language_id: c.language_id.clone(),
        command: c.command.clone(),
        args: clone_strings(&c.args),
        extensions: clone_strings(&c.extensions),
        idle_timeout_secs: c.idle_timeout_secs,
    }
}

impl LspServerPool {
    /// The registered configurations.
    pub closed spec fn configs(&self) -> Seq<ConfigView> {
        self.configs@.map_values(|c: LspConfig| config_view(c))
    }

    /// The running servers.
    pub closed spec fn servers(&self) -> Seq<ServerView> {
        self.servers@.map_values(|s: RunningServer| server_view(s))
    }

    /// The concurrent server limit.
    pub closed spec fn limit(&self) -> nat {
        self.max_concurrent as nat
    }

    /// One configuration and one server per language.
    pub closed spec fn wf(&self) -> bool {
        &&& config_languages(self.configs()).no_duplicates()
        &&& server_languages(self.servers()).no_duplicates()
    }

    fn find_config(&self, language: &str) -> (i: usize)
        ensures
            i == config_index(self.configs(), language@),
    {
        let ghost s = self.configs();
        let mut i: usize = 0;
        assert(s.skip(0) =~= s);
        while i < self.configs.len()
            invariant
                i <= self.configs@.len(),
                s == self.configs(),
                s.len() == self.configs@.len(),
                config_index(s, language@) == i + config_index(s.skip(i as int), language@),
            decreases self.configs@.len() - i,
        {
            assert(s.skip(i as int)[0] == s[i as int]);
            if str_eq(self.configs[i].language_id.as_str(), language) {
                return i;
            }
            assert(s.skip(i as int).drop_first() =~= s.skip(i + 1));
            i += 1;
        }
        assert(s.skip(i as int).len() == 0);
        i
    }

    fn find_server(&self, language: &str) -> (i: usize)
        ensures
            i == server_index(self.servers(), language@),
    {
        let ghost s = self.servers();
        let mut i: usize = 0;
        assert(s.skip(0) =~= s);
        while i < self.servers.len()
            invariant
                i <= self.servers@.len(),
                s == self.servers(),
                s.len() == self.servers@.len(),
                server_index(s, language@) == i + server_index(s.skip(i as int), language@),
            decreases self.servers@.len() - i,
        {
            assert(s.skip(i as int)[0] == s[i as int]);
            if str_eq(self.servers[i].language.as_str(), language) {
                return i;
            }
            assert(s.skip(i as int).drop_first() =~= s.skip(i + 1));
            i += 1;
        }
        assert(s.skip(i as int).len() == 0);
        i
    }

    /// Registers a configuration: it replaces the one of its language, or
    /// is added.
    pub fn register_config(&mut self, config: LspConfig)
        requires
            old(self).wf(),
        ensures
            final(self).wf(),
            final(self).configs() == with_config(old(self).configs(), config_view(config)),
            final(self).servers() == old(self).servers(),
            final(self).limit() == old(self).limit(),
    {
        let ghost s = self.configs();
        let i = self.find_config(config.language_id.as_str());
        proof {
            lemma_config_index(s, config.language_id@);
            lemma_with_config_distinct(s, config_view(config));
        }
        if i < self.configs.len() {
            let ghost before = self.configs@;
            self.configs.set(i, config);
            assert(self.configs() =~= s.update(i as int, config_view(config)));
        } else {
            self.configs.push(config);
            assert(self.configs() =~= s.push(config_view(config)));
        }
    }

    /// A pool of the given configurations (a later one replacing an earlier
    /// one of the same language), no running server and a limit of 4.
    pub fn with_configs(configs: Vec<LspConfig>) -> (p: Self)
        ensures
            p.wf(),
            p.configs() == registered(configs@.map_values(|c: LspConfig| config_view(c))),
            p.servers().len() == 0,
            p.limit() == 4,
    {
        let ghost views = configs@.map_values(|c: LspConfig| config_view(c));
        let mut p = LspServerPool { configs: Vec::new(), servers: Vec::new(), max_concurrent: 4 };
        proof {
            assert(p.configs() =~= Seq::<ConfigView>::empty());
            assert(p.servers() =~= Seq::<ServerView>::empty());
            assert(config_languages(Seq::<ConfigView>::empty()) =~= Seq::<Seq<char>>::empty());
            assert(server_languages(Seq::<ServerView>::empty()) =~= Seq::<Seq<char>>::empty());
        }
        let mut i: usize = 0;
        while i < configs.len()
            invariant
                i <= configs@.len(),
                views == configs@.map_values(|c: LspConfig| config_view(c)),
                p.wf(),
                p.configs() == registered(views.take(i as int)),
                p.servers().len() == 0,
                p.limit() == 4,
            decreases configs@.len() - i,
        {
            let c = clone_config(&configs[i]);
            p.register_config(c);
            assert(views.take(i + 1).drop_last() =~= views.take(i as int));
            i += 1;
        }
        assert(views.take(configs@.len() as int) =~= views);
        p
    }

    /// A pool of the default configurations, no running server and a limit
    /// of 4.
    pub fn new() -> (p: Self)
        ensures
            p.wf(),
            p.configs() == default_configs(),
            p.servers().len() == 0,
            p.limit() == 4,
    {
        let defaults = default_lsp_configs();
        let p = Self::with_configs(defaults);
        proof {
            let d = default_configs();
            reveal_strlit("typescript");
            reveal_strlit("rust");
            reveal_strlit("python");
            reveal_strlit("go");
            reveal_strlit("c");
            let langs = config_languages(d);
            assert(langs[0].len() == 10 && langs[1].len() == 4 && langs[2].len() == 6 && langs[3].len() == 2
                && langs[4].len() == 1);
            assert(langs.no_duplicates());
            lemma_registered_distinct_keeps(d);
        }
        p
    }

    /// Sets the concurrent server limit.
    pub fn set_max_concurrent(&mut self, max: usize)
        ensures
            final(self).limit() == max,
            final(self).configs() == old(self).configs(),
            final(self).servers() == old(self).servers(),
            final(self).wf() == old(self).wf(),
    {
        self.max_concurrent = max;
    }

    /// The concurrent server limit.
    pub fn max_concurrent(&self) -> (m: usize)
        ensures
            m == self.limit(),
    {
        self.max_concurrent
    }

    /// The number of running servers.
    pub fn running_count(&self) -> (n: usize)
        ensures
            n == self.servers().len(),
    {
        self.servers.len()
    }

    /// Marks a language's server as used at `now_ms`, when it runs.
    pub fn touch_server(&mut self, language: &str, now_ms: u64)
        requires
            old(self).wf(),
        ensures
            final(self).wf(),
            final(self).configs() == old(self).configs(),
            final(self).limit() == old(self).limit(),
            final(self).servers() == ({
                let s = old(self).servers();
                let i = server_index(s, language@);
                if i < s.len() {
                    s.update(i as int, (language@, now_ms as nat, s[i as int].2))
                } else {
                    s
                }
            }),
    {
        let ghost s = self.servers();
        let i = self.find_server(language);
        proof {
            lemma_server_index(s, language@);
        }
        if i < self.servers.len() {
            let timeout = self.servers[i].idle_timeout_secs;
            let ghost vi = s[i as int];
            self.servers.set(i, RunningServer { language: language.to_owned(), last_used_ms: now_ms, idle_timeout_secs: timeout });
            proof {
                assert(self.servers() =~= s.update(i as int, (language@, now_ms as nat, vi.2)));
                assert(server_languages(self.servers()) =~= server_languages(s));
            }
        }
    }

    /// Gets a language's server at `now_ms`: the running one, marked used;
    /// else, below the limit, a start with the language's configuration,
    /// recorded as running from now; else an error (the limit first, then
    /// an unsupported language).
    pub fn get_server(&mut self, language: &str, now_ms: u64) -> (r: Result<ServerAccess, LspPoolError>)
        requires
            old(self).wf(),
        ensures
            final(self).wf(),
            final(self).configs() == old(self).configs(),
            final(self).limit() == old(self).limit(),
            ({
                let s = old(self).servers();
                let c = old(self).configs();
                let i = server_index(s, language@);
                let j = config_index(c, language@);
                if i < s.len() {
                    &&& r matches Ok(ServerAccess::Running)
                    &&& final(self).servers() == s.update(i as int, (language@, now_ms as nat, s[i as int].2))
                } else if s.len() >= old(self).limit() {
                    &&& r matches Err(LspPoolError::ServerNotAvailable(m)) && m@ == limit_message(old(self).limit())
                    &&& final(self).servers() == s
                } else if j == c.len() {
                    &&& r matches Err(LspPoolError::UnsupportedLanguage(l)) && l@ == language@
                    &&& final(self).servers() == s
                } else {
                    &&& r matches Ok(ServerAccess::Start(cfg)) && config_view(cfg) == c[j as int]
                    &&& final(self).servers() == s.push((language@, now_ms as nat, c[j as int].4 as nat))
                }
            }),
    {
        let ghost s = self.servers();
        let ghost c = self.configs();
        let i = self.find_server(language);
        proof {
            lemma_server_index(s, language@);
        }
        if i < self.servers.len() {
            self.touch_server(language, now_ms);
            return Ok(ServerAccess::Running);
        }
        if self.servers.len() >= self.max_concurrent {
            let mut m = "Max concurrent servers (".to_owned();
            let n = usize_to_string(self.max_concurrent);
            push_str(&mut m, n.as_str());
            push_str(&mut m, ") reached");
            return Err(LspPoolError::ServerNotAvailable(m));
        }
        let j = self.find_config(language);
        proof {
            lemma_config_index(c, language@);
        }
        if j == self.configs.len() {
            return Err(LspPoolError::UnsupportedLanguage(language.to_owned()));
        }
        let cfg = clone_config(&self.configs[j]);
        let timeout = self.configs[j].idle_timeout_secs;
        assert(c[j as int].0 == language@);
        self.servers.push(RunningServer { language: language.to_owned(), last_used_ms: now_ms, idle_timeout_secs: timeout });
        proof {
            assert(self.servers() =~= s.push((language@, now_ms as nat, timeout as nat)));
            assert(server_languages(self.servers()) =~= server_languages(s).push(language@));
            assert forall|k: int| 0 <= k < server_languages(s).len() implies server_languages(s)[k] != language@ by {
                assert(server_languages(s)[k] == s[k].0);
            }
        }
        Ok(ServerAccess::Start(cfg))
    }

    /// Retires the servers idle at `now_ms` (see `is_idle`), giving their
    /// languages in order; the others stay, in order.
    pub fn idle_sweep(&mut self, now_ms: u64) -> (retired: Vec<String>)
        requires
            old(self).wf(),
        ensures
            final(self).wf(),
            final(self).configs() == old(self).configs(),
            final(self).limit() == old(self).limit(),
            final(self).servers() == live_servers(old(self).servers(), now_ms as nat),
            string_views(retired@) == server_languages(idle_servers(old(self).servers(), now_ms as nat)),
    {
        let ghost s = self.servers();
        let ghost keep = |v: ServerView| !is_idle(v, now_ms as nat);
        let ghost drop = |v: ServerView| is_idle(v, now_ms as nat);
        let mut kept: Vec<RunningServer> = Vec::new();
        let mut retired: Vec<String> = Vec::new();
        let mut i: usize = 0;
        while i < self.servers.len()
            invariant
                i <= self.servers@.len(),
                s == self.servers(),
                s.len() == self.servers@.len(),
                keep == (|v: ServerView| !is_idle(v, now_ms as nat)),
                drop == (|v: ServerView| is_idle(v, now_ms as nat)),
                kept@.map_values(|x: RunningServer| server_view(x)) == s.take(i as int).filter(keep),
                string_views(retired@) == server_languages(s.take(i as int).filter(drop)),
            decreases self.servers@.len() - i,
        {
            proof {
                assert(s.take(i + 1).drop_last() == s.take(i as int));
                assert(s.take(i + 1).last() == s[i as int]);
                reveal_with_fuel(Seq::filter, 1);
            }
            let srv = &self.servers[i];
            let elapsed: u64 = if now_ms >= srv.last_used_ms { now_ms - srv.last_used_ms } else { 0 };
            let idle = elapsed / 1000 >= srv.idle_timeout_secs;
            proof {
                let e = elapsed as nat;
                let t = srv.idle_timeout_secs as nat;
                assert((e / 1000 >= t) == (e >= t * 1000)) by (nonlinear_arith);
            }
            if idle {
                let ghost before = retired@;
                retired.push(srv.language.clone());
                proof {
                    assert(string_views(retired@) =~= string_views(before).push(s[i as int].0));
                    assert(server_languages(s.take(i as int).filter(drop).push(s[i as int])) =~= server_languages(
                        s.take(i as int).filter(drop),
                    ).push(s[i as int].0));
                }
            } else {
                let ghost before = kept@;
                kept.push(RunningServer {
                    language: srv.language.clone(),
                    last_used_ms: srv.last_used_ms,
                    idle_timeout_secs: srv.idle_timeout_secs,
                });
                proof {
                    assert(kept@.map_values(|x: RunningServer| server_view(x)) =~= before.map_values(
                        |x: RunningServer| server_view(x),
                    ).push(s[i as int]));
                }
            }
            i += 1;
        }
        assert(s.take(s.len() as int) =~= s);
        self.servers = kept;
        proof {
            let f = s.filter(keep);
            s.filter_lemma(keep);
            assert forall|a: int, b: int| 0 <= a < b < f.len() implies server_languages(f)[a] != server_languages(
                f,
            )[b] by {
                lemma_filter_preserves_distinct(s, keep, a, b);
            }
        }
        retired
    }

    /// Stops a language's server, if it runs.
    pub fn stop_server(&mut self, language: &str) -> (r: Result<(), LspPoolError>)
        requires
            old(self).wf(),
        ensures
            r is Ok,
            final(self).wf(),
            final(self).configs() == old(self).configs(),
            final(self).limit() == old(self).limit(),
            final(self).servers() == ({
                let s = old(self).servers();
                let i = server_index(s, language@);
                if i < s.len() {
                    s.remove(i as int)
                } else {
                    s
                }
            }),
    {
        let ghost s = self.servers();
        let i = self.find_server(language);
        proof {
            lemma_server_index(s, language@);
        }
        if i < self.servers.len() {
            let _ = self.servers.remove(i);
            proof {
                assert(self.servers() =~= s.remove(i as int));
                assert forall|a: int, b: int|
                    0 <= a < b < s.len() - 1 implies server_languages(self.servers())[a] != server_languages(
                    self.servers(),
                )[b] by {
                    let a0 = if a < i { a } else { a + 1 };
                    let b0 = if b < i { b } else { b + 1 };
                    assert(server_languages(s)[a0] == s[a0].0);
                    assert(server_languages(s)[b0] == s[b0].0);
                }
            }
        }
        Ok(())
    }

    /// Stops all servers, giving their languages in order.
    pub fn stop_all(&mut self) -> (stopped: Vec<String>)
        requires
            old(self).wf(),
        ensures
            final(self).wf(),
            final(self).servers().len() == 0,
            final(self).configs() == old(self).configs(),
            final(self).limit() == old(self).limit(),
            string_views(stopped@) == server_languages(old(self).servers()),
    {
        let ghost s = self.servers();
        let mut stopped: Vec<String> = Vec::new();
        let mut i: usize = 0;
        while i < self.servers.len()
            invariant
                i <= self.servers@.len(),
                s == self.servers(),
                s.len() == self.servers@.len(),
                string_views(stopped@) == server_languages(s.take(i as int)),
            decreases self.servers@.len() - i,
        {
            let ghost before = stopped@;
            stopped.push(self.servers[i].language.clone());
            proof {
                assert(string_views(stopped@) =~= string_views(before).push(s[i as int].0));
                assert(server_languages(s.take(i + 1)) =~= server_languages(s.take(i as int)).push(s[i as int].0));
            }
            i += 1;
        }
        assert(s.take(s.len() as int) =~= s);
        self.servers.clear();
        proof {
            assert(self.servers() =~= Seq::<ServerView>::empty());
            assert(server_languages(self.servers()) =~= Seq::<Seq<char>>::empty());
        }
        stopped
    }

    /// Shuts the pool down: all servers stop.
    pub fn shutdown(&mut self) -> (stopped: Vec<String>)
        requires
            old(self).wf(),
        ensures
            final(self).wf(),
            final(self).servers().len() == 0,
            final(self).configs() == old(self).configs(),
            string_views(stopped@) == server_languages(old(self).servers()),
    {
        self.stop_all()
    }
}

proof fn lemma_filter_preserves_distinct(s: Seq<ServerView>, keep: spec_fn(ServerView) -> bool, a: int, b: int)
    requires
        server_languages(s).no_duplicates(),
        0 <= a < b < s.filter(keep).len(),
    ensures
        server_languages(s.filter(keep))[a] != server_languages(s.filter(keep))[b],
    decreases s.len(),
{
    reveal_with_fuel(Seq::filter, 1);
    let f = s.filter(keep);
    let g = s.drop_last().filter(keep);
    assert(server_languages(s.drop_last()).no_duplicates()) by {
        assert forall|x: int, y: int| 0 <= x < y < s.drop_last().len() implies server_languages(s.drop_last())[x]
            != server_languages(s.drop_last())[y] by {
            assert(server_languages(s)[x] == s[x].0);
            assert(server_languages(s)[y] == s[y].0);
        }
    }
    if keep(s.last()) && b == f.len() - 1 {
        assert(f == g.push(s.last()));
        s.drop_last().filter_lemma(keep);
        assert(g.contains(g[a]));
        s.drop_last().lemma_filter_contains_rev(keep, g[a]);
        let k = choose|k: int| 0 <= k < s.drop_last().len() && s.drop_last()[k] == g[a];
        assert(s[k] == s.drop_last()[k]);
        assert(server_languages(s)[k] == s[k].0);
        assert(server_languages(s)[s.len() - 1] == s.last().0);
    } else if keep(s.last()) {
        assert(f == g.push(s.last()));
        lemma_filter_preserves_distinct(s.drop_last(), keep, a, b);
    } else {
        assert(f == g);
        lemma_filter_preserves_distinct(s.drop_last(), keep, a, b);
    }
}

/// A server retired by an idle sweep at `now` was unused for at least its
/// timeout, and no server left after it is idle then.
pub proof fn lemma_sweep_leaves_no_idle(s: Seq<ServerView>, now: nat)
    ensures
        forall|k: int| 0 <= k < live_servers(s, now).len() ==> !is_idle(#[trigger] live_servers(s, now)[k], now),
        forall|k: int| 0 <= k < idle_servers(s, now).len() ==> is_idle(#[trigger] idle_servers(s, now)[k], now),
{
    s.filter_lemma(|v: ServerView| !is_idle(v, now));
    s.filter_lemma(|v: ServerView| is_idle(v, now));
}

/// A server just got or started at `now` is not retired by a sweep at the
/// same instant, unless its idle timeout is zero.
pub proof fn lemma_fresh_server_survives_sweep(language: Seq<char>, now: nat, timeout: nat)
    requires
        timeout > 0,
    ensures
        !is_idle((language, now, timeout), now),
{
}

} // verus!
