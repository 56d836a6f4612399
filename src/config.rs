//! Forwarding rules and the engine's configuration: the text form of a rule,
//! its resolution into endpoints, and the merge of the command-line rules
//! with those of a rule file into one list, sorted by source port.
use crate::endpoint::{Endpoint, IpAddress};
use getopts::{Fail, Matches, Options};
use crate::text::{decimal_value, parse_decimal, split_chars, split_on};
use vstd::prelude::*;
use vstd::string::StrSliceExecFns;

verus! {

/// One forwarding rule: connections accepted on `s_port` are relayed to
/// `targets`.
#[derive(Debug)]
pub struct Forward {
    pub s_port: u16,
    pub targets: Vec<Endpoint>,
}

/// Why a configuration could not be built.
#[derive(Debug, PartialEq, Eq)]
pub enum ConfigError {
    /// Help was asked for, or the options could not be read.
    Help,
    /// A rule that is not `SPORT:HOST:PORT[,HOST:PORT...]`; holds the rule.
    InvalidTarget(String),
    /// A target host could not be resolved; holds the resolver's message.
    Lookup(String),
    /// Not a port number; holds the text.
    InvalidPort(String),
    /// Not a positive buffer size; holds the text.
    InvalidBufferSize(String),
    /// Not a positive number of threads; holds the text.
    InvalidThreadCount(String),
    /// Two command-line rules share this source port.
    DuplicatePort(u16),
    /// The rule file does not exist; holds its path.
    MissingFile(String),
    /// The rule file could not be read; holds the reason.
    Read(String),
    /// No rule was given.
    NoForward,
}

/// One target of a rule, as text.
#[derive(Debug)]
pub struct TargetText {
    pub host: String,
    pub port: String,
}

/// A rule split into its parts, before its hosts are resolved.
#[derive(Debug)]
pub struct ForwardText {
    pub s_port: String,
    pub targets: Vec<TargetText>,
}

pub open spec fn is_first_colon(s: Seq<char>, i: int) -> bool {
    0 <= i < s.len() && s[i] == ':' && forall|j: int| 0 <= j < i ==> s[j] != ':'
}

pub open spec fn has_colon(s: Seq<char>) -> bool {
    exists|i: int| 0 <= i < s.len() && s[i] == ':'
}

/// The position of the first `:` of `s`.
pub open spec fn first_colon(s: Seq<char>) -> int {
    choose|i: int| is_first_colon(s, i)
}

/// The target pieces of rule `s`: what follows its first `:`, split at `,`.
pub open spec fn target_pieces(s: Seq<char>) -> Seq<Seq<char>> {
    split_on(s.subrange(first_colon(s) + 1, s.len() as int), ',')
}

/// Whether every target piece is `HOST:PORT`.
pub open spec fn targets_well_formed(s: Seq<char>) -> bool {
    forall|k: int|
        0 <= k < target_pieces(s).len() ==> #[trigger] split_on(target_pieces(s)[k], ':').len()
            == 2
}

/// Whether `s` has the shape of a rule.
pub open spec fn rule_well_formed(s: Seq<char>) -> bool {
    has_colon(s) && targets_well_formed(s)
}

proof fn lemma_first_colon(s: Seq<char>, i: int)
    requires
        is_first_colon(s, i),
    ensures
        first_colon(s) == i,
{
    let c = first_colon(s);
    assert(is_first_colon(s, c));
    if c < i {
        assert(s[c] == ':');
    } else if c > i {
        assert(s[i] == ':');
    }
}

/// Splits rule `s`, `SPORT:HOST:PORT[,HOST:PORT...]`, into its parts.
pub fn split_forward(s: &str) -> (r: Result<ForwardText, ConfigError>)
    ensures
        r is Ok <==> rule_well_formed(s@),
        r matches Err(e) ==> e matches ConfigError::InvalidTarget(t) && t@ == s@,
        r matches Ok(f) ==> {
            &&& f.s_port@ == s@.subrange(0, first_colon(s@))
            &&& f.targets@.len() == target_pieces(s@).len()
            &&& forall|k: int|
                0 <= k < f.targets@.len() ==> {
                    &&& (#[trigger] f.targets@[k]).host@ == split_on(target_pieces(s@)[k], ':')[0]
                    &&& f.targets@[k].port@ == split_on(target_pieces(s@)[k], ':')[1]
                }
        },
{
    let n = s.unicode_len();
    let mut i: usize = 0;
    let mut found: bool = false;
    while i < n && !found
        invariant
            n == s@.len(),
            0 <= i <= n,
            forall|j: int| 0 <= j < i ==> s@[j] != ':',
            found ==> i < n && s@[i as int] == ':',
        decreases n - i + (if found { 0int } else { 1int }),
    {
        if s.get_char(i) == ':' {
            found = true;
        } else {
            i = i + 1;
        }
    }
    if !found {
        return Err(ConfigError::InvalidTarget(String::from_str(s)));
    }
    proof {
        lemma_first_colon(s@, i as int);
    }
    let s_port = String::from_str(s.substring_char(0, i));
    let rest = s.substring_char(i + 1, n);
    let mut pieces = split_chars(rest, ',');
    let ghost pv = pieces@.map_values(|p: String| p@);
    assert(pv == target_pieces(s@));
    let m = pieces.len();
    let mut targets: Vec<TargetText> = Vec::new();
    let mut k: usize = 0;
    while k < m
        invariant
            m == pv.len(),
            pieces@.len() == m,
            pv == target_pieces(s@),
            forall|j: int| 0 <= j < m ==> (#[trigger] pieces@[j])@ == pv[j],
            0 <= k <= m,
            targets@.len() == k,
            forall|j: int| 0 <= j < k ==> #[trigger] split_on(pv[j], ':').len() == 2,
            forall|j: int|
                0 <= j < k ==> {
                    &&& (#[trigger] targets@[j]).host@ == split_on(pv[j], ':')[0]
                    &&& targets@[j].port@ == split_on(pv[j], ':')[1]
                },
        decreases m - k,
    {
        let mut halves = split_chars(pieces[k].as_str(), ':');
        assert(halves@.map_values(|p: String| p@) == split_on(pv[k as int], ':'));
        if halves.len() != 2 {
            assert(split_on(target_pieces(s@)[k as int], ':').len() != 2);
            assert(!targets_well_formed(s@));
            return Err(ConfigError::InvalidTarget(String::from_str(s)));
        }
        let port = halves.pop().unwrap();
        let host = halves.pop().unwrap();
        targets.push(TargetText { host, port });
        k = k + 1;
    }
    assert(has_colon(s@));
    assert forall|j: int| 0 <= j < target_pieces(s@).len() implies #[trigger] split_on(
        target_pieces(s@)[j],
        ':',
    ).len() == 2 by {
        assert(split_on(pv[j], ':').len() == 2);
    }
    Ok(ForwardText { s_port, targets })
}

/// The value of a port number's text.
pub open spec fn port_value(t: Seq<char>) -> Option<int> {
    decimal_value(t, u16::MAX as int)
}

/// Whether a target resolved and carries a valid port.
pub open spec fn target_ok(t: TargetText, res: Result<IpAddress, String>) -> bool {
    res is Ok && port_value(t.port@) is Some
}

/// The endpoint of a target that resolved and carries a valid port.
pub open spec fn resolved_target(t: TargetText, res: Result<IpAddress, String>) -> Endpoint {
    Endpoint { ip: res->Ok_0, port: port_value(t.port@)->Some_0 as u16 }
}

/// Whether target `k` is the first that did not resolve or has no valid
/// port.
pub open spec fn first_bad_target(
    ts: Seq<TargetText>,
    res: Seq<Result<IpAddress, String>>,
    k: int,
) -> bool {
    &&& 0 <= k < ts.len()
    &&& !target_ok(ts[k], res[k])
    &&& forall|j: int| 0 <= j < k ==> target_ok(#[trigger] ts[j], res[j])
}

pub open spec fn all_targets_ok(ts: Seq<TargetText>, res: Seq<Result<IpAddress, String>>) -> bool {
    forall|j: int| 0 <= j < ts.len() ==> target_ok(#[trigger] ts[j], res[j])
}

/// Builds the rule of `text`, whose `k`-th host resolved to `resolved[k]`
/// (an address, or the resolver's message). The targets are checked in
/// order, each for its address and then its port; the source port last.
pub fn resolve_forward(text: &ForwardText, resolved: &Vec<Result<IpAddress, String>>) -> (r: Result<
    Forward,
    ConfigError,
>)
    requires
        resolved@.len() == text.targets@.len(),
    ensures
        r is Ok <==> all_targets_ok(text.targets@, resolved@) && port_value(text.s_port@) is Some,
        forall|k: int|
            first_bad_target(text.targets@, resolved@, k) ==> match #[trigger] resolved@[k] {
                Err(m) => (r matches Err(ConfigError::Lookup(e)) && e == m),
                Ok(_) => (r matches Err(ConfigError::InvalidPort(t)) && t@ == text.targets@[k].port@),
            },
        all_targets_ok(text.targets@, resolved@) && port_value(text.s_port@) is None ==> (r matches Err(
            ConfigError::InvalidPort(t),
        ) && t@ == text.s_port@),
        r matches Ok(f) ==> {
            &&& port_value(text.s_port@) == Some(f.s_port as int)
            &&& f.targets@.len() == text.targets@.len()
            &&& forall|k: int|
                0 <= k < f.targets@.len() ==> #[trigger] f.targets@[k] == resolved_target(
                    text.targets@[k],
                    resolved@[k],
                )
        },
{
    let n = text.targets.len();
    let mut targets: Vec<Endpoint> = Vec::new();
    let mut k: usize = 0;
    while k < n
        invariant
            n == text.targets@.len(),
            n == resolved@.len(),
            0 <= k <= n,
            targets@.len() == k,
            forall|j: int| 0 <= j < k ==> target_ok(#[trigger] text.targets@[j], resolved@[j]),
            forall|j: int|
                0 <= j < k ==> #[trigger] targets@[j] == resolved_target(
                    text.targets@[j],
                    resolved@[j],
                ),
        decreases n - k,
    {
        let t = &text.targets[k];
        match &resolved[k] {
            Err(m) => {
                assert(first_bad_target(text.targets@, resolved@, k as int));
                proof {
                    assert forall|j: int| first_bad_target(text.targets@, resolved@, j) implies j
                        == k by {
                        if j < k {
                            assert(target_ok(text.targets@[j], resolved@[j]));
                        }
                        if j > k {
                            assert(target_ok(text.targets@[k as int], resolved@[k as int]));
                        }
                    }
                }
                return Err(ConfigError::Lookup(m.clone()));
            },
            Ok(ip) => {
                match parse_decimal(t.port.as_str(), 65535) {
                    None => {
                        assert(first_bad_target(text.targets@, resolved@, k as int));
                        proof {
                            assert forall|j: int|
                                first_bad_target(text.targets@, resolved@, j) implies j == k by {
                                if j < k {
                                    assert(target_ok(text.targets@[j], resolved@[j]));
                                }
                                if j > k {
                                    assert(target_ok(text.targets@[k as int], resolved@[k as int]));
                                }
                            }
                        }
                        return Err(ConfigError::InvalidPort(t.port.clone()));
                    },
                    Some(port) => {
                        targets.push(Endpoint { ip: *ip, port: port as u16 });
                    },
                }
            },
        }
        k = k + 1;
    }
    proof {
        assert forall|j: int| !first_bad_target(text.targets@, resolved@, j) by {
            if 0 <= j < n {
                assert(target_ok(text.targets@[j], resolved@[j]));
            }
        }
    }
    match parse_decimal(text.s_port.as_str(), 65535) {
        None => Err(ConfigError::InvalidPort(text.s_port.clone())),
        Some(s_port) => Ok(Forward { s_port: s_port as u16, targets }),
    }
}

/// Whether some rule of `fs` has source port `p`.
pub open spec fn has_port(fs: Seq<Forward>, p: u16) -> bool {
    exists|i: int| 0 <= i < fs.len() && (#[trigger] fs[i]).s_port == p
}

/// Adds command-line rule `f` to `forwards`, unless a rule there already
/// has its source port.
pub fn push_cli_forward(forwards: &mut Vec<Forward>, f: Forward) -> (r: Result<(), ConfigError>)
    ensures
        r is Err <==> has_port(old(forwards)@, f.s_port),
        r matches Err(e) ==> e == ConfigError::DuplicatePort(f.s_port),
        r is Ok ==> final(forwards)@ == old(forwards)@.push(f),
        r is Err ==> final(forwards)@ == old(forwards)@,
{
    let n = forwards.len();
    let mut i: usize = 0;
    while i < n
        invariant
            n == forwards@.len(),
            forwards@ == old(forwards)@,
            0 <= i <= n,
            forall|j: int| 0 <= j < i ==> (#[trigger] forwards@[j]).s_port != f.s_port,
        decreases n - i,
    {
        if forwards[i].s_port == f.s_port {
            return Err(ConfigError::DuplicatePort(f.s_port));
        }
        i = i + 1;
    }
    forwards.push(f);
    Ok(())
}

/// No two rules of `fs` share a source port.
pub open spec fn ports_unique(fs: Seq<Forward>) -> bool {
    forall|i: int, j: int| 0 <= i < j < fs.len() ==> fs[i].s_port != fs[j].s_port
}

/// Rule `j` is the first of `fs` whose source port an earlier rule has.
pub open spec fn is_first_repeat(fs: Seq<Forward>, j: int) -> bool {
    0 <= j < fs.len() && ports_unique(fs.subrange(0, j)) && !ports_unique(fs.subrange(0, j + 1))
}

/// Source ports strictly ascend along `fs`.
pub open spec fn sorted_by_port(fs: Seq<Forward>) -> bool {
    forall|i: int, j: int| 0 <= i < j < fs.len() ==> fs[i].s_port < fs[j].s_port
}

/// Rule `j` is the first of `fs` with its source port.
pub open spec fn first_of_port(fs: Seq<Forward>, j: int) -> bool {
    0 <= j < fs.len() && forall|i: int| 0 <= i < j ==> (#[trigger] fs[i]).s_port != fs[j].s_port
}

/// `out` holds, sorted by source port, the first rule of `all` for each
/// source port that occurs in `all`, and nothing else.
pub open spec fn merged(all: Seq<Forward>, out: Seq<Forward>) -> bool {
    &&& sorted_by_port(out)
    &&& forall|i: int| 0 <= i < out.len() ==> is_first_rule(all, #[trigger] out[i])
    &&& forall|j: int| first_of_port(all, j) ==> contains_rule(out, #[trigger] all[j])
}

/// Whether `f` is the first rule of `all` with its source port.
#[verifier::opaque]
pub open spec fn is_first_rule(all: Seq<Forward>, f: Forward) -> bool {
    exists|j: int| first_of_port(all, j) && all[j] == f
}

/// Whether `f` is one of the rules of `out`.
#[verifier::opaque]
pub open spec fn contains_rule(out: Seq<Forward>, f: Forward) -> bool {
    exists|i: int| 0 <= i < out.len() && out[i] == f
}

/// The merge after `k` rules of `all`: `out` is sorted; its rule `i` is
/// the first rule of its port, at `src[i]` in `all`; and the port of rule
/// `j` of `all` is that of rule `cov[j]` of `out`.
pub open spec fn merge_inv(
    all: Seq<Forward>,
    k: int,
    out: Seq<Forward>,
    src: Seq<int>,
    cov: Seq<int>,
) -> bool {
    &&& sorted_by_port(out)
    &&& src.len() == out.len()
    &&& cov.len() == k
    &&& forall|i: int|
        0 <= i < out.len() ==> {
            &&& 0 <= #[trigger] src[i] < k
            &&& first_of_port(all, src[i])
            &&& all[src[i]] == out[i]
        }
    &&& forall|j: int|
        0 <= j < k ==> {
            &&& 0 <= #[trigger] cov[j] < out.len()
            &&& out[cov[j]].s_port == all[j].s_port
        }
}

proof fn lemma_merge_inv_merged(all: Seq<Forward>, out: Seq<Forward>, src: Seq<int>, cov: Seq<int>)
    requires
        merge_inv(all, all.len() as int, out, src, cov),
    ensures
        merged(all, out),
{
    reveal(is_first_rule);
    reveal(contains_rule);
    assert forall|i: int| 0 <= i < out.len() implies is_first_rule(all, #[trigger] out[i]) by {
        assert(first_of_port(all, src[i]) && all[src[i]] == out[i]);
    }
    assert forall|j: int| first_of_port(all, j) implies contains_rule(out, #[trigger] all[j]) by {
        let i = cov[j];
        let s = src[i];
        assert(first_of_port(all, s));
        assert(all[s].s_port == all[j].s_port);
        if s < j {
            assert(all[s].s_port != all[j].s_port);
        } else if s > j {
            assert(all[j].s_port != all[s].s_port);
        }
        assert(out[i] == all[j]);
    }
}

proof fn lemma_merge_skip(all: Seq<Forward>, k: int, out: Seq<Forward>, src: Seq<int>, cov: Seq<int>, p: int)
    requires
        0 <= k < all.len(),
        merge_inv(all, k, out, src, cov),
        0 <= p < out.len(),
        out[p].s_port == all[k].s_port,
    ensures
        merge_inv(all, k + 1, out, src, cov.push(p)),
{
    let c2 = cov.push(p);
    assert forall|j: int| 0 <= j < k + 1 implies 0 <= #[trigger] c2[j] < out.len() && out[c2[j]].s_port
        == all[j].s_port by {
        if j < k {
            assert(c2[j] == cov[j]);
        }
    }
}

#[verifier::rlimit(40)]
proof fn lemma_merge_insert(all: Seq<Forward>, k: int, out: Seq<Forward>, src: Seq<int>, cov: Seq<int>, p: int)
    requires
        0 <= k < all.len(),
        merge_inv(all, k, out, src, cov),
        0 <= p <= out.len(),
        forall|i: int| 0 <= i < p ==> (#[trigger] out[i]).s_port < all[k].s_port,
        p < out.len() ==> out[p].s_port > all[k].s_port,
    ensures
        merge_inv(
            all,
            k + 1,
            out.insert(p, all[k]),
            src.insert(p, k),
            cov.map_values(|x: int| if x >= p { x + 1 } else { x }).push(p),
        ),
{
    let f = all[k];
    let m = out.len();
    assert forall|i: int| 0 <= i < m implies (#[trigger] out[i]).s_port != f.s_port by {
        if i > p {
            assert(out[p].s_port < out[i].s_port);
        }
    }
    assert(first_of_port(all, k)) by {
        assert forall|i: int| 0 <= i < k implies (#[trigger] all[i]).s_port != all[k].s_port by {
            assert(out[cov[i]].s_port == all[i].s_port);
        }
    }
    let no = out.insert(p, f);
    let s2 = src.insert(p, k);
    let c2 = cov.map_values(|x: int| if x >= p { x + 1 } else { x }).push(p);
    assert forall|i: int| 0 <= i < no.len() implies #[trigger] no[i] == (if i < p {
        out[i]
    } else if i == p {
        f
    } else {
        out[i - 1]
    }) && s2[i] == (if i < p {
        src[i]
    } else if i == p {
        k
    } else {
        src[i - 1]
    }) by {}
    assert forall|a: int, b: int| 0 <= a < b < no.len() implies no[a].s_port < no[b].s_port by {
        if a < p && b > p {
            assert(out[a].s_port < f.s_port);
            assert(out[b - 1].s_port != f.s_port);
            if b - 1 > p {
                assert(out[p].s_port < out[b - 1].s_port);
            }
        } else if a == p {
            if b - 1 > p {
                assert(out[p].s_port < out[b - 1].s_port);
            }
        } else if b == p {
            assert(out[a].s_port < f.s_port);
        } else if a > p {
            assert(out[a - 1].s_port < out[b - 1].s_port);
        } else {
            assert(out[a].s_port < out[b].s_port);
        }
    }
    assert forall|i: int| 0 <= i < no.len() implies {
        &&& 0 <= #[trigger] s2[i] < k + 1
        &&& first_of_port(all, s2[i])
        &&& all[s2[i]] == no[i]
    } by {
        if i < p {
            assert(src[i] == s2[i]);
        } else if i > p {
            assert(src[i - 1] == s2[i]);
        }
    }
    assert forall|j: int| 0 <= j < k + 1 implies {
        &&& 0 <= #[trigger] c2[j] < no.len()
        &&& no[c2[j]].s_port == all[j].s_port
    } by {
        if j < k {
            let w = cov[j];
            if w < p {
                assert(c2[j] == w);
            } else {
                assert(c2[j] == w + 1);
            }
        }
    }
}

/// Checks that no two rules of `fs` share a source port; the error names
/// the port of the first rule that repeats an earlier one.
pub fn check_unique_ports(fs: &Vec<Forward>) -> (r: Result<(), ConfigError>)
    ensures
        r is Ok <==> ports_unique(fs@),
        !ports_unique(fs@) ==> exists|j: int|
            is_first_repeat(fs@, j) && r == Err::<(), ConfigError>(
                ConfigError::DuplicatePort(fs@[j].s_port),
            ),
{
    let n = fs.len();
    let mut j: usize = 0;
    while j < n
        invariant
            n == fs@.len(),
            0 <= j <= n,
            ports_unique(fs@.subrange(0, j as int)),
        decreases n - j,
    {
        let mut i: usize = 0;
        while i < j
            invariant
                n == fs@.len(),
                0 <= i <= j < n,
                ports_unique(fs@.subrange(0, j as int)),
                forall|i2: int| 0 <= i2 < i ==> fs@[i2].s_port != fs@[j as int].s_port,
            decreases j - i,
        {
            if fs[i].s_port == fs[j].s_port {
                proof {
                    let sub = fs@.subrange(0, j + 1);
                    assert(sub[i as int].s_port == sub[j as int].s_port);
                    assert(!ports_unique(sub));
                    assert(is_first_repeat(fs@, j as int));
                }
                return Err(ConfigError::DuplicatePort(fs[j].s_port));
            }
            i = i + 1;
        }
        proof {
            let sub = fs@.subrange(0, j + 1);
            let prev = fs@.subrange(0, j as int);
            assert forall|a: int, b: int| 0 <= a < b < sub.len() implies sub[a].s_port
                != sub[b].s_port by {
                if b < j {
                    assert(sub[a] == prev[a] && sub[b] == prev[b]);
                }
            }
        }
        j = j + 1;
    }
    assert(fs@.subrange(0, n as int) =~= fs@);
    Ok(())
}

/// Merges the command-line rules with those of the rule file: for each
/// source port the first rule in `cli` then `file` is kept, and the result
/// is sorted by source port. Two command-line rules with one source port
/// are an error, as is an empty result.
pub fn merge_forwards(cli: Vec<Forward>, file: Vec<Forward>) -> (r: Result<Vec<Forward>, ConfigError>)
    ensures
        !ports_unique(cli@) ==> exists|j: int|
            is_first_repeat(cli@, j) && r == Err::<Vec<Forward>, ConfigError>(
                ConfigError::DuplicatePort(cli@[j].s_port),
            ),
        ports_unique(cli@) && cli@.len() + file@.len() == 0 ==> r == Err::<Vec<Forward>, ConfigError>(
            ConfigError::NoForward,
        ),
        ports_unique(cli@) && cli@.len() + file@.len() > 0 ==> (r matches Ok(out) && merged(
            cli@ + file@,
            out@,
        )),
{
    match check_unique_ports(&cli) {
        Err(e) => {
            return Err(e);
        },
        Ok(()) => {},
    }
    let ghost cli0 = cli@;
    let mut all = cli;
    let mut rest = file;
    all.append(&mut rest);
    let ghost all0 = all@;
    assert(all0 == cli0 + file@);
    let total = all.len();
    if total == 0 {
        return Err(ConfigError::NoForward);
    }
    let mut out: Vec<Forward> = Vec::new();
    let mut k: usize = 0;
    let ghost mut src: Seq<int> = Seq::empty();
    let ghost mut cov: Seq<int> = Seq::empty();
    while all.len() > 0
        invariant
            total == all0.len(),
            0 <= k <= total,
            all@ == all0.subrange(k as int, total as int),
            merge_inv(all0, k as int, out@, src, cov),
        decreases all@.len(),
    {
        let f = all.remove(0);
        assert(f == all0[k as int]);
        let m = out.len();
        let mut p: usize = 0;
        while p < m && out[p].s_port < f.s_port
            invariant
                m == out@.len(),
                0 <= p <= m,
                forall|i: int| 0 <= i < p ==> (#[trigger] out@[i]).s_port < f.s_port,
            decreases m - p,
        {
            p = p + 1;
        }
        if p < m && out[p].s_port == f.s_port {
            proof {
                lemma_merge_skip(all0, k as int, out@, src, cov, p as int);
                cov = cov.push(p as int);
            }
        } else {
            proof {
                lemma_merge_insert(all0, k as int, out@, src, cov, p as int);
                src = src.insert(p as int, k as int);
                cov = cov.map_values(|x: int| if x >= p { x + 1 } else { x }).push(p as int);
            }
            out.insert(p, f);
        }
        k = k + 1;
    }
    assert(k == total);
    proof {
        lemma_merge_inv_merged(all0, out@, src, cov);
    }
    Ok(out)
}

/// The size of a relay's copy buffer, in KiB, when none is given.
pub const DEFAULT_BUFFER_SIZE_KB: usize = 8;

/// The number of worker threads when none is given.
pub const DEFAULT_N_THREAD: usize = 5;

/// The largest buffer size, in KiB, whose size in bytes fits in `usize`.
pub const MAX_BUFFER_SIZE_KB: usize = usize::MAX / 1024;

/// The engine's configuration.
#[derive(Debug)]
pub struct Config {
    /// The rules, sorted by source port.
    pub forwards: Vec<Forward>,
    /// The size of each relay's copy buffer, in KiB.
    pub buffer_size_kb: usize,
    /// The number of worker threads.
    pub n_thread: usize,
}

impl Config {
    /// Rules sorted by source port, each with a target; a positive buffer
    /// size whose size in bytes fits in `usize`; a positive thread count.
    pub open spec fn wf(&self) -> bool {
        &&& sorted_by_port(self.forwards@)
        &&& forall|i: int| 0 <= i < self.forwards@.len() ==> (#[trigger] self.forwards@[i]).targets@.len() > 0
        &&& 0 < self.buffer_size_kb <= MAX_BUFFER_SIZE_KB
        &&& self.n_thread > 0
    }

    /// The size of each relay's copy buffer, in bytes; `None` when it
    /// does not fit in `usize`, which a well-formed configuration rules out.
    pub fn buffer_size_bytes(&self) -> (r: Option<usize>)
        ensures
            self.buffer_size_kb * 1024 <= usize::MAX ==> r == Some((self.buffer_size_kb * 1024) as usize),
            self.buffer_size_kb * 1024 > usize::MAX ==> r is None,
            self.wf() ==> r is Some,
    {
        self.buffer_size_kb.checked_mul(1024)
    }
}

/// What the command line holds, as text.
#[derive(Debug)]
pub struct CommandLine {
    pub help: bool,
    pub buffer_size: Option<String>,
    pub config_file: Option<String>,
    pub n_thread: Option<String>,
    /// The rules, in the order given.
    pub free: Vec<String>,
}

#[verifier::external_type_specification]
#[verifier::external_body]
pub struct ExOptions(Options);

#[verifier::external_type_specification]
#[verifier::external_body]
pub struct ExMatches(Matches);

#[verifier::external_type_specification]
#[verifier::external_body]
pub struct ExFail(Fail);

/// The names, short and long, of the options declared in `o`.
pub uninterp spec fn option_names(o: Options) -> Set<Seq<char>>;

/// The names of the options that parse result `m` can be asked about.
pub uninterp spec fn matched_names(m: Matches) -> Set<Seq<char>>;

/// Relies on getopts::Options::new: a set of options with none declared.
pub assume_specification[ Options::new ]() -> (r: Options)
    ensures
        option_names(r) == Set::<Seq<char>>::empty(),
;

/// Relies on getopts::Options::optflag: declares a flag without argument
/// under a one-character and a longer name; it panics on other names.
#[verifier::external_body]
fn declare_flag(o: &mut Options, short: &str, long: &str, desc: &str)
    requires
        short@.len() == 1,
        (short@[0] as u32) < 128,
        long@.len() > 1,
    ensures
        option_names(*final(o)) == option_names(*old(o)).insert(short@).insert(long@),
{
    o.optflag(short, long, desc);
}

/// Relies on getopts::Options::optopt: declares an option with an argument
/// under a one-character and a longer name; it panics on other names.
#[verifier::external_body]
fn declare_option(o: &mut Options, short: &str, long: &str, desc: &str, hint: &str)
    requires
        short@.len() == 1,
        (short@[0] as u32) < 128,
        long@.len() > 1,
    ensures
        option_names(*final(o)) == option_names(*old(o)).insert(short@).insert(long@),
{
    o.optopt(short, long, desc, hint);
}

/// Relies on getopts::Options::parse: on success, the result can be asked
/// about every option that `o` declares.
#[verifier::external_body]
fn parse_options(o: &Options, args: &Vec<String>) -> (r: Result<Matches, Fail>)
    ensures
        r matches Ok(m) ==> matched_names(m) == option_names(*o),
{
    o.parse(args)
}

/// Relies on getopts::Matches::opt_present, which panics on a name that
/// was not declared.
pub assume_specification[ Matches::opt_present ](m: &Matches, name: &str) -> bool
    requires
        matched_names(*m).contains(name@),
;

/// Relies on getopts::Matches::opt_str, which panics on a name that was
/// not declared.
pub assume_specification[ Matches::opt_str ](m: &Matches, name: &str) -> Option<String>
    requires
        matched_names(*m).contains(name@),
;

/// Relies on getopts::Matches::free: the arguments that are not options.
#[verifier::external_body]
fn free_arguments(m: &Matches) -> Vec<String> {
    m.free.clone()
}

/// The options of the command line: `-h`/`--help`, `-b`/`--buff`,
/// `-f`/`--conf` and `-t`/`--nthread`.
pub fn get_opts() -> (r: Options)
    ensures
        forall|n: Seq<char>|
            #![trigger option_names(r).contains(n)]
            n == "h"@ || n == "help"@ || n == "b"@ || n == "buff"@ || n == "f"@ || n == "conf"@
                || n == "t"@ || n == "nthread"@ ==> option_names(r).contains(n),
{
    proof {
        reveal_strlit("h");
        reveal_strlit("help");
        reveal_strlit("b");
        reveal_strlit("buff");
        reveal_strlit("f");
        reveal_strlit("conf");
        reveal_strlit("t");
        reveal_strlit("nthread");
    }
    let mut opts = Options::new();
    declare_flag(&mut opts, "h", "help", "print this help menu");
    declare_option(&mut opts, "b", "buff", "The buffer size of each handler thread", "BUFF_SIZE");
    declare_option(&mut opts, "f", "conf", "A list of information for port forwarding", "CONFIG_FILE");
    declare_option(&mut opts, "t", "nthread", "The number of handler threads", "N_THREAD");
    opts
}

/// Reads the options of `args`, the arguments after the program's name.
/// Arguments that the options cannot read ask for help.
pub fn parse_command_line(args: &Vec<String>) -> (r: Result<CommandLine, ConfigError>)
    ensures
        r matches Err(e) ==> e == ConfigError::Help,
{
    let opts = get_opts();
    let matches = match parse_options(&opts, args) {
        Ok(m) => m,
        Err(_) => {
            return Err(ConfigError::Help);
        },
    };
    proof {
        reveal_strlit("h");
        reveal_strlit("b");
        reveal_strlit("f");
        reveal_strlit("t");
    }
    Ok(CommandLine {
        help: matches.opt_present("h"),
        buffer_size: matches.opt_str("b"),
        config_file: matches.opt_str("f"),
        n_thread: matches.opt_str("t"),
        free: free_arguments(&matches),
    })
}

/// The buffer size of `text`, in KiB: a decimal number from 1 to
/// `MAX_BUFFER_SIZE_KB`.
pub fn parse_buffer_size(text: &str) -> (r: Result<usize, ConfigError>)
    ensures
        r matches Ok(v) ==> decimal_value(text@, MAX_BUFFER_SIZE_KB as int) == Some(v as int) && v > 0,
        r is Err <==> !(decimal_value(text@, MAX_BUFFER_SIZE_KB as int) matches Some(v) && v > 0),
        r matches Err(e) ==> (e matches ConfigError::InvalidBufferSize(t) && t@ == text@),
{
    match parse_decimal(text, MAX_BUFFER_SIZE_KB as u64) {
        Some(v) => {
            if v == 0 {
                Err(ConfigError::InvalidBufferSize(String::from_str(text)))
            } else {
                Ok(v as usize)
            }
        },
        None => Err(ConfigError::InvalidBufferSize(String::from_str(text))),
    }
}

/// The thread count of `text`: a positive decimal number that fits in
/// `usize`.
pub fn parse_thread_count(text: &str) -> (r: Result<usize, ConfigError>)
    ensures
        r matches Ok(v) ==> decimal_value(text@, usize::MAX as int) == Some(v as int) && v > 0,
        r is Err <==> !(decimal_value(text@, usize::MAX as int) matches Some(v) && v > 0),
        r matches Err(e) ==> (e matches ConfigError::InvalidThreadCount(t) && t@ == text@),
{
    match parse_decimal(text, usize::MAX as u64) {
        Some(v) => {
            if v == 0 {
                Err(ConfigError::InvalidThreadCount(String::from_str(text)))
            } else {
                Ok(v as usize)
            }
        },
        None => Err(ConfigError::InvalidThreadCount(String::from_str(text))),
    }
}

/// The buffer size, in KiB, and the thread count of a command line, in
/// that order of checking; help comes first.
pub fn read_settings(cl: &CommandLine) -> (r: Result<(usize, usize), ConfigError>)
    ensures
        cl.help ==> r == Err::<(usize, usize), ConfigError>(ConfigError::Help),
        !cl.help && cl.buffer_size is None && cl.n_thread is None ==> r == Ok::<
            (usize, usize),
            ConfigError,
        >((DEFAULT_BUFFER_SIZE_KB, DEFAULT_N_THREAD)),
        r matches Ok((b, t)) ==> {
            &&& !cl.help
            &&& match cl.buffer_size {
                Some(text) => decimal_value(text@, MAX_BUFFER_SIZE_KB as int) == Some(b as int) && b > 0,
                None => b == DEFAULT_BUFFER_SIZE_KB,
            }
            &&& match cl.n_thread {
                Some(text) => decimal_value(text@, usize::MAX as int) == Some(t as int) && t > 0,
                None => t == DEFAULT_N_THREAD,
            }
        },
        !cl.help && (cl.buffer_size matches Some(text) && !(decimal_value(
            text@,
            MAX_BUFFER_SIZE_KB as int,
        ) matches Some(v) && v > 0)) ==> (r matches Err(ConfigError::InvalidBufferSize(t))
            && t@ == cl.buffer_size->Some_0@),
        !cl.help && !(cl.buffer_size matches Some(text) && !(decimal_value(
            text@,
            MAX_BUFFER_SIZE_KB as int,
        ) matches Some(v) && v > 0)) && (cl.n_thread matches Some(text) && !(decimal_value(
            text@,
            usize::MAX as int,
        ) matches Some(v) && v > 0)) ==> (r matches Err(ConfigError::InvalidThreadCount(t)) && t@
            == cl.n_thread->Some_0@),
{
    if cl.help {
        return Err(ConfigError::Help);
    }
    let buffer_size_kb = match &cl.buffer_size {
        Some(text) => match parse_buffer_size(text.as_str()) {
            Ok(v) => v,
            Err(e) => {
                return Err(e);
            },
        },
        None => DEFAULT_BUFFER_SIZE_KB,
    };
    let n_thread = match &cl.n_thread {
        Some(text) => match parse_thread_count(text.as_str()) {
            Ok(v) => v,
            Err(e) => {
                return Err(e);
            },
        },
        None => DEFAULT_N_THREAD,
    };
    Ok((buffer_size_kb, n_thread))
}

/// A line without the one `\r` that may end it.
pub open spec fn strip_cr(l: Seq<char>) -> Seq<char> {
    if l.len() > 0 && l.last() == '\r' {
        l.drop_last()
    } else {
        l
    }
}

/// The lines of a rule file: the text split at `\n`, with no empty last
/// line after a final `\n`, and each line without a final `\r`.
pub open spec fn file_lines(text: Seq<char>) -> Seq<Seq<char>> {
    let parts = split_on(text, '\n');
    let kept = if parts.last().len() == 0 {
        parts.drop_last()
    } else {
        parts
    };
    kept.map_values(|l: Seq<char>| strip_cr(l))
}

/// The lines of a rule file's text; each one is a rule.
pub fn config_lines(text: &str) -> (r: Vec<String>)
    ensures
        r@.map_values(|l: String| l@) == file_lines(text@),
{
    let parts = split_chars(text, '\n');
    let ghost pv = parts@.map_values(|p: String| p@);
    proof {
        crate::text::lemma_split_on_nonempty(text@, '\n');
    }
    let n = parts.len();
    let last_empty = parts[n - 1].as_str().unicode_len() == 0;
    let m = if last_empty {
        n - 1
    } else {
        n
    };
    let ghost kept = if pv.last().len() == 0 {
        pv.drop_last()
    } else {
        pv
    };
    assert(kept.len() == m);
    let mut lines: Vec<String> = Vec::new();
    let mut i: usize = 0;
    while i < m
        invariant
            n == pv.len(),
            pv == parts@.map_values(|p: String| p@),
            m == kept.len(),
            m <= n,
            forall|j: int| 0 <= j < m ==> kept[j] == pv[j],
            0 <= i <= m,
            lines@.len() == i,
            lines@.map_values(|l: String| l@) == kept.subrange(0, i as int).map_values(
                |l: Seq<char>| strip_cr(l),
            ),
        decreases m - i,
    {
        let line = parts[i].as_str();
        let len = line.unicode_len();
        let stripped = if len > 0 && line.get_char(len - 1) == '\r' {
            line.substring_char(0, len - 1)
        } else {
            line
        };
        assert(stripped@ == strip_cr(kept[i as int])) by {
            assert(line@ == kept[i as int]);
            if len > 0 {
                assert(line@.drop_last() =~= line@.subrange(0, len - 1));
            }
        }
        let ghost before = lines@.map_values(|l: String| l@);
        lines.push(String::from_str(stripped));
        proof {
            let lv = lines@.map_values(|l: String| l@);
            let kv = kept.subrange(0, i + 1).map_values(|l: Seq<char>| strip_cr(l));
            let pv2 = kept.subrange(0, i as int).map_values(|l: Seq<char>| strip_cr(l));
            assert forall|j: int| 0 <= j < i + 1 implies lv[j] == kv[j] by {
                if j < i {
                    assert(lv[j] == before[j]);
                    assert(before[j] == pv2[j]);
                }
            }
            assert(lv =~= kv);
        }
        i = i + 1;
    }
    assert(kept.subrange(0, m as int) =~= kept);
    lines
}

/// A list of rules in which two share a source port is refused, and the
/// refusal names a port that two of its rules share.
pub proof fn lemma_duplicate_port_refused(fs: Seq<Forward>, i: int, j: int)
    requires
        0 <= i < j < fs.len(),
        fs[i].s_port == fs[j].s_port,
    ensures
        !ports_unique(fs),
        exists|k: int|
            is_first_repeat(fs, k) && exists|a: int| 0 <= a < k && #[trigger] fs[a].s_port == fs[k].s_port,
{
    assert(!ports_unique(fs.subrange(0, j + 1))) by {
        assert(fs.subrange(0, j + 1)[i] == fs[i]);
        assert(fs.subrange(0, j + 1)[j] == fs[j]);
    }
    lemma_first_repeat_exists(fs, j);
}

proof fn lemma_first_repeat_exists(fs: Seq<Forward>, j: int)
    requires
        0 <= j < fs.len(),
        !ports_unique(fs.subrange(0, j + 1)),
    ensures
        exists|k: int|
            is_first_repeat(fs, k) && exists|a: int| 0 <= a < k && #[trigger] fs[a].s_port == fs[k].s_port,
    decreases j,
{
    if j > 0 && !ports_unique(fs.subrange(0, j)) {
        lemma_first_repeat_exists(fs, j - 1);
    } else {
        let sub = fs.subrange(0, j + 1);
        let (a, b) = choose|a: int, b: int| 0 <= a < b < sub.len() && sub[a].s_port == sub[b].s_port;
        if b < j {
            assert(fs.subrange(0, j)[a] == sub[a] && fs.subrange(0, j)[b] == sub[b]);
        }
        assert(b == j);
        assert(fs[a].s_port == fs[j].s_port);
        assert(is_first_repeat(fs, j));
    }
}

/// Merging command-line rules with distinct source ports and file rules
/// keeps, for every source port that occurs in either list, exactly one
/// rule: the first seen, command line first; and the rules ascend by
/// source port.
pub proof fn lemma_merge_first_seen(cli: Seq<Forward>, file: Seq<Forward>, out: Seq<Forward>, p: u16)
    requires
        ports_unique(cli),
        merged(cli + file, out),
        has_port(cli + file, p),
    ensures
        sorted_by_port(out),
        exists|i: int| 0 <= i < out.len() && (#[trigger] out[i]).s_port == p,
        forall|a: int, b: int|
            0 <= a < out.len() && 0 <= b < out.len() && out[a].s_port == p && out[b].s_port == p
                ==> a == b,
        forall|c: int| 0 <= c < cli.len() && (#[trigger] cli[c]).s_port == p ==> contains_rule(out, cli[c]),
        !has_port(cli, p) ==> forall|c: int|
            0 <= c < file.len() && first_of_port(file, c) && (#[trigger] file[c]).s_port == p ==> contains_rule(
                out,
                file[c],
            ),
{
    let all = cli + file;
    lemma_merged_has_port(all, out, p);
    assert forall|a: int, b: int|
        0 <= a < out.len() && 0 <= b < out.len() && out[a].s_port == p && out[b].s_port == p implies a
        == b by {
        if a < b {
            assert(out[a].s_port < out[b].s_port);
        } else if b < a {
            assert(out[b].s_port < out[a].s_port);
        }
    }
    assert forall|c: int| 0 <= c < cli.len() && (#[trigger] cli[c]).s_port == p implies contains_rule(
        out,
        cli[c],
    ) by {
        assert(all[c] == cli[c]);
        assert forall|x: int| 0 <= x < c implies (#[trigger] all[x]).s_port != all[c].s_port by {
            assert(all[x] == cli[x]);
        }
        assert(first_of_port(all, c));
    }
    if !has_port(cli, p) {
        assert forall|c: int|
            0 <= c < file.len() && first_of_port(file, c) && (#[trigger] file[c]).s_port == p implies contains_rule(
            out,
            file[c],
        ) by {
            let jc = cli.len() + c;
            assert(all[jc] == file[c]);
            assert forall|x: int| 0 <= x < jc implies (#[trigger] all[x]).s_port != all[jc].s_port by {
                if x < cli.len() {
                    assert(all[x] == cli[x]);
                    assert(cli[x].s_port != p);
                } else {
                    assert(all[x] == file[x - cli.len()]);
                }
            }
            assert(first_of_port(all, jc));
        }
    }
}

proof fn lemma_merged_has_port(all: Seq<Forward>, out: Seq<Forward>, p: u16)
    requires
        merged(all, out),
        has_port(all, p),
    ensures
        exists|i: int| 0 <= i < out.len() && (#[trigger] out[i]).s_port == p,
{
    let j0 = choose|j: int| 0 <= j < all.len() && (#[trigger] all[j]).s_port == p;
    lemma_first_of_port_exists(all, j0);
    let j = choose|j: int| first_of_port(all, j) && all[j].s_port == all[j0].s_port;
    assert(contains_rule(out, all[j]));
    reveal(contains_rule);
    let i = choose|i: int| 0 <= i < out.len() && out[i] == all[j];
    assert(out[i].s_port == p);
}

proof fn lemma_first_of_port_exists(fs: Seq<Forward>, j: int)
    requires
        0 <= j < fs.len(),
    ensures
        exists|k: int| first_of_port(fs, k) && fs[k].s_port == fs[j].s_port,
    decreases j,
{
    if exists|i: int| 0 <= i < j && (#[trigger] fs[i]).s_port == fs[j].s_port {
        let i = choose|i: int| 0 <= i < j && (#[trigger] fs[i]).s_port == fs[j].s_port;
        lemma_first_of_port_exists(fs, i);
    } else {
        assert(first_of_port(fs, j));
    }
}

} // verus!
