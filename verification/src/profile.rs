//! Provider profiles and the three resolution queries made against them:
//! the full request URL, the API credential, and the resolved header map.

use vstd::prelude::*;
use crate::envtable::EnvVars;
use crate::headers::HeaderMap;
use crate::headers::assoc_last;
use crate::headers::lemma_assoc_last_concat;
use crate::headers::lemma_assoc_last_push;
use crate::headers::lines_of;
use crate::headers::parse_line;
use crate::headers::resolved_block_lines;
use crate::headers::resolved_profile_headers;
use crate::headers::split_lines;
use crate::strutil::blank;
use crate::strutil::find_char;
use crate::strutil::is_blank;
use crate::strutil::lemma_find_char_bounds;
use crate::strutil::str_eq;
use crate::strutil::trim;
use crate::strutil::trim_spec;
use crate::subst::subst;
use crate::subst::substitute_env_vars;

verus! {

/// Wire protocol that a provider speaks. The two protocols use different
/// request and response shapes and cannot be auto-detected, so each profile
/// declares which one it expects.
#[derive(Debug, Clone, Copy, PartialEq, Eq, Structural)]
pub enum WireApi {
    /// The newer "Responses" API, served under `/responses`.
    Responses,
    /// Classic Chat Completions, served under `/chat/completions`.
    Chat,
}

impl Default for WireApi {
    /// Profiles that do not declare a protocol speak Chat Completions.
    fn default() -> (r: Self)
        ensures
            r == WireApi::Chat,
    {
        WireApi::Chat
    }
}

/// A provider connection profile: everything needed to reach one
/// OpenAI-compatible API.
#[derive(Debug, Clone, PartialEq)]
pub struct ModelProviderInfo {
    /// Friendly display name.
    pub name: String,
    /// Base URL of the provider's OpenAI-compatible API.
    pub base_url: String,
    /// Environment variable holding the API credential; `None` means no
    /// credential is required.
    pub env_key: Option<String>,
    /// Remediation text shown when the credential variable is missing.
    pub env_key_instructions: Option<String>,
    /// Which wire protocol the provider expects.
    pub wire_api: WireApi,
    /// Query parameters appended to the built URL, in order.
    pub query_params: Option<Vec<(String, String)>>,
    /// Header templates; values may hold `${VAR}` placeholders.
    pub custom_headers: Option<Vec<(String, String)>>,
}

/// Failure to resolve a required credential: the variable is unset, empty,
/// or whitespace-only.
#[derive(Debug, Clone, PartialEq)]
pub struct EnvVarError {
    /// Name of the variable that was consulted.
    pub var: String,
    /// Remediation text carried over from the profile, if any.
    pub instructions: Option<String>,
}

/// View of an optional string.
pub open spec fn opt_view(o: Option<String>) -> Option<Seq<char>> {
    match o {
        Some(s) => Some(s@),
        None => None,
    }
}

/// The designated primary credential variable, which is resolved through an
/// alternate provider-specific lookup instead of the environment table.
pub open spec fn primary_env_var() -> Seq<char> {
    "OPENAI_API_KEY"@
}

/// The environment variable holding the process-wide header block.
pub open spec fn custom_headers_var() -> Seq<char> {
    "CODEX_CUSTOM_HEADERS"@
}

/// URL suffix selected by the wire protocol.
pub open spec fn wire_suffix(w: WireApi) -> Seq<char> {
    match w {
        WireApi::Responses => "/responses"@,
        WireApi::Chat => "/chat/completions"@,
    }
}

/// One rendered `key=value` query parameter.
pub open spec fn query_pair(kv: (String, String)) -> Seq<char> {
    kv.0@ + "="@ + kv.1@
}

/// The rendered query parameters joined with `&`.
pub open spec fn query_pairs_joined(ps: Seq<(String, String)>) -> Seq<char>
    decreases ps.len(),
{
    if ps.len() == 0 {
        Seq::empty()
    } else if ps.len() == 1 {
        query_pair(ps[0])
    } else {
        query_pairs_joined(ps.drop_last()) + "&"@ + query_pair(ps.last())
    }
}

/// The query string appended to the URL: `?k1=v1&k2=v2...` when parameters
/// are present and non-empty, nothing otherwise.
pub open spec fn query_string(qp: Option<Vec<(String, String)>>) -> Seq<char> {
    match qp {
        None => Seq::empty(),
        Some(ps) => if ps@.len() == 0 {
            Seq::empty()
        } else {
            "?"@ + query_pairs_joined(ps@)
        },
    }
}

/// The full request URL for a profile: base URL, wire-protocol suffix, then
/// the query string. Keys and values are inserted verbatim, without
/// percent-encoding.
pub open spec fn full_url(p: ModelProviderInfo) -> Seq<char> {
    p.base_url@ + wire_suffix(p.wire_api) + query_string(p.query_params)
}

/// The entries contributed by the per-profile header templates.
pub open spec fn profile_part(p: ModelProviderInfo, env: EnvVars) -> Seq<(Seq<char>, Seq<char>)> {
    match p.custom_headers {
        Some(hs) => resolved_profile_headers(hs@, env),
        None => Seq::empty(),
    }
}

/// The entries contributed by the process-wide header block.
pub open spec fn block_part(env: EnvVars) -> Seq<(Seq<char>, Seq<char>)> {
    match env.lookup(custom_headers_var()) {
        Some(v) => resolved_block_lines(lines_of(v), env),
        None => Seq::empty(),
    }
}

/// All resolved header entries in merge order: per-profile templates first,
/// then the process-wide block, so the block wins on a shared name.
pub open spec fn resolved_headers(p: ModelProviderInfo, env: EnvVars) -> Seq<
    (Seq<char>, Seq<char>),
> {
    profile_part(p, env) + block_part(env)
}

/// The built URL decomposes into base URL, the suffix owed to the wire
/// protocol, and the query string: Responses profiles end in `/responses`,
/// Chat profiles in `/chat/completions`, each plus the query string.
pub proof fn lemma_url_wire_suffix(p: ModelProviderInfo)
    ensures
        p.wire_api == WireApi::Responses ==> full_url(p) == p.base_url@ + "/responses"@
            + query_string(p.query_params),
        p.wire_api == WireApi::Chat ==> full_url(p) == p.base_url@ + "/chat/completions"@
            + query_string(p.query_params),
{
}

/// Merge precedence: a name that the process-wide block resolves takes the
/// block's value, shadowing any per-profile header of the same name; a name
/// the block does not resolve keeps the per-profile value.
pub proof fn lemma_merge_precedence(p: ModelProviderInfo, env: EnvVars, n: Seq<char>)
    ensures
        assoc_last(block_part(env), n) is Some ==> assoc_last(resolved_headers(p, env), n)
            == assoc_last(block_part(env), n),
        assoc_last(block_part(env), n) is None ==> assoc_last(resolved_headers(p, env), n)
            == assoc_last(profile_part(p, env), n),
{
    lemma_assoc_last_concat(profile_part(p, env), block_part(env), n);
}

/// Clones an optional string.
fn clone_opt(o: &Option<String>) -> (r: Option<String>)
    ensures
        opt_view(r) == opt_view(*o),
{
    match o {
        Some(s) => Some(s.clone()),
        None => None,
    }
}

impl ModelProviderInfo {
    /// Builds the exact request URL for this profile.
    pub fn get_full_url(&self) -> (r: String)
        ensures
            r@ == full_url(*self),
    {
        let ghost base_part = self.base_url@ + wire_suffix(self.wire_api);
        let mut url = String::from_str(self.base_url.as_str());
        match self.wire_api {
            WireApi::Responses => url.append("/responses"),
            WireApi::Chat => url.append("/chat/completions"),
        }
        if let Some(ps) = &self.query_params {
            let m = ps.len();
            if m > 0 {
                url.append("?");
                proof {
                    assert(url@ =~= base_part + "?"@ + query_pairs_joined(ps@.take(0)));
                }
                for k in 0..m
                    invariant
                        m == ps@.len(),
                        m > 0,
                        url@ == base_part + "?"@ + query_pairs_joined(ps@.take(k as int)),
                {
                    if k > 0 {
                        url.append("&");
                    }
                    url.append(ps[k].0.as_str());
                    url.append("=");
                    url.append(ps[k].1.as_str());
                    proof {
                        assert(ps@.take(k as int + 1).drop_last() =~= ps@.take(k as int));
                        assert(ps@.take(k as int + 1).last() == ps@[k as int]);
                        assert(url@ =~= base_part + "?"@ + query_pairs_joined(
                            ps@.take(k as int + 1),
                        ));
                    }
                }
                proof {
                    assert(ps@.take(m as int) =~= ps@);
                }
            } else {
                proof {
                    assert(url@ =~= full_url(*self));
                }
            }
        } else {
            proof {
                assert(url@ =~= full_url(*self));
            }
        }
        url
    }

    /// Resolves the API credential for this profile.
    ///
    /// `primary_key` is the result of the alternate provider-specific lookup
    /// for the designated primary credential variable; it is consulted, in
    /// place of the environment table, only when `env_key` names that
    /// variable. A present but empty or whitespace-only value fails exactly
    /// like an absent one; a profile without `env_key` needs no credential
    /// and never fails.
    pub fn api_key(&self, env: &EnvVars, primary_key: Option<String>) -> (r: Result<
        Option<String>,
        EnvVarError,
    >)
        ensures
            self.env_key is None ==> (r matches Ok(k) && k is None),
            self.env_key matches Some(var) ==> {
                let looked = if var@ == primary_env_var() {
                    opt_view(primary_key)
                } else {
                    env.lookup(var@)
                };
                match looked {
                    Some(v) => if is_blank(v) {
                        r matches Err(e) && e.var@ == var@ && opt_view(e.instructions) == opt_view(
                            self.env_key_instructions,
                        )
                    } else {
                        r matches Ok(k) && k matches Some(s) && s@ == v
                    },
                    None => r matches Err(e) && e.var@ == var@ && opt_view(e.instructions)
                        == opt_view(self.env_key_instructions),
                }
            },
    {
        match &self.env_key {
            None => Ok(None),
            Some(var) => {
                let looked: Option<String> = if str_eq(var.as_str(), "OPENAI_API_KEY") {
                    primary_key
                } else {
                    env.get(var.as_str())
                };
                match looked {
                    None => Err(
                        EnvVarError {
                            var: var.clone(),
                            instructions: clone_opt(&self.env_key_instructions),
                        },
                    ),
                    Some(v) => {
                        if blank(v.as_str()) {
                            Err(
                                EnvVarError {
                                    var: var.clone(),
                                    instructions: clone_opt(&self.env_key_instructions),
                                },
                            )
                        } else {
                            Ok(Some(v))
                        }
                    },
                }
            },
        }
    }

    /// Resolves the final header mapping for this profile: per-profile
    /// templates first, then the process-wide block, every value substituted;
    /// on a shared name the block's entry wins.
    pub fn get_custom_headers(&self, env: &EnvVars) -> (r: HeaderMap)
        ensures
            r.wf(),
            forall|n: Seq<char>| #[trigger] r.lookup(n) == assoc_last(
                resolved_headers(*self, *env),
                n,
            ),
    {
        let mut headers = HeaderMap::new();
        let ghost mut acc: Seq<(Seq<char>, Seq<char>)> = Seq::empty();
        if let Some(hs) = &self.custom_headers {
            let m = hs.len();
            proof {
                assert(acc =~= resolved_profile_headers(hs@.take(0), *env));
            }
            for k in 0..m
                invariant
                    m == hs@.len(),
                    headers.wf(),
                    acc == resolved_profile_headers(hs@.take(k as int), *env),
                    forall|n: Seq<char>| #[trigger] headers.lookup(n) == assoc_last(acc, n),
            {
                let value = substitute_env_vars(hs[k].1.as_str(), env);
                let name = hs[k].0.clone();
                let ghost entry = ((name@, value@));
                headers.insert(name, value);
                proof {
                    assert forall|n: Seq<char>| true implies assoc_last(acc.push(entry), n) == (
                    if entry.0 == n {
                        Some(entry.1)
                    } else {
                        assoc_last(acc, n)
                    }) by {
                        lemma_assoc_last_push(acc, entry, n);
                    }
                    acc = acc.push(entry);
                    assert(hs@.take(k as int + 1).drop_last() =~= hs@.take(k as int));
                    assert(hs@.take(k as int + 1).last() == hs@[k as int]);
                    assert(acc =~= resolved_profile_headers(hs@.take(k as int), *env) + seq![
                        (hs@[k as int].0@, subst(hs@[k as int].1@, *env)),
                    ]);
                }
            }
            proof {
                assert(hs@.take(m as int) =~= hs@);
            }
        }
        proof {
            assert(acc == profile_part(*self, *env));
        }
        match env.get("CODEX_CUSTOM_HEADERS") {
            None => {
                proof {
                    assert(acc =~= resolved_headers(*self, *env));
                }
            },
            Some(blk) => {
                let ghost ls = lines_of(blk@);
                let ghost base = acc;
                let lines = split_lines(blk.as_str());
                let count = lines.len();
                proof {
                    assert(acc =~= base + resolved_block_lines(ls.take(0), *env));
                }
                for k in 0..count
                    invariant
                        count == lines@.len(),
                        count == ls.len(),
                        forall|t: int| 0 <= t < count ==> lines@[t]@ == ls[t],
                        headers.wf(),
                        acc == base + resolved_block_lines(ls.take(k as int), *env),
                        forall|n: Seq<char>| #[trigger] headers.lookup(n) == assoc_last(acc, n),
                {
                    let line = &lines[k];
                    let line_len = line.as_str().unicode_len();
                    proof {
                        assert(ls.take(k as int + 1).drop_last() =~= ls.take(k as int));
                        assert(ls.take(k as int + 1).last() == ls[k as int]);
                    }
                    match find_char(line.as_str(), 0, ':') {
                        None => {
                            proof {
                                assert(parse_line(ls[k as int]) is None);
                                assert(resolved_block_lines(ls.take(k as int + 1), *env)
                                    =~= resolved_block_lines(ls.take(k as int), *env));
                            }
                        },
                        Some(j) => {
                            proof {
                                lemma_find_char_bounds(line@, 0, ':', j as int);
                            }
                            let key = trim(line.as_str().substring_char(0, j));
                            let raw_value = trim(line.as_str().substring_char(j + 1, line_len));
                            let value = substitute_env_vars(raw_value.as_str(), env);
                            proof {
                                assert(line@.subrange(0, j as int) =~= line@.take(j as int));
                                assert(line@.subrange(j as int + 1, line@.len() as int)
                                    =~= line@.skip(j as int + 1));
                                assert(parse_line(ls[k as int]) == Some(
                                    (key@, trim_spec(line@.skip(j as int + 1))),
                                ));
                            }
                            let ghost entry = ((key@, value@));
                            headers.insert(key, value);
                            proof {
                                assert forall|n: Seq<char>| true implies assoc_last(
                                    acc.push(entry),
                                    n,
                                ) == (if entry.0 == n {
                                    Some(entry.1)
                                } else {
                                    assoc_last(acc, n)
                                }) by {
                                    lemma_assoc_last_push(acc, entry, n);
                                }
                                acc = acc.push(entry);
                                assert(resolved_block_lines(ls.take(k as int + 1), *env)
                                    =~= resolved_block_lines(ls.take(k as int), *env) + seq![
                                    entry,
                                ]);
                                assert(acc =~= base + resolved_block_lines(
                                    ls.take(k as int + 1),
                                    *env,
                                ));
                            }
                        },
                    }
                }
                proof {
                    assert(ls.take(count as int) =~= ls);
                    assert(acc =~= resolved_headers(*self, *env));
                }
            },
        }
        headers
    }
}

/// The built-in default provider list: only the OpenAI provider, keyed
/// `"openai"`.
pub fn built_in_model_providers() -> (r: Vec<(String, ModelProviderInfo)>)
    ensures
        r@.len() == 1,
        r@[0].0@ == "openai"@,
        r@[0].1.name@ == "OpenAI"@,
        r@[0].1.base_url@ == "https://api.openai.com/v1"@,
        r@[0].1.env_key matches Some(k) && k@ == primary_env_var(),
        r@[0].1.env_key_instructions matches Some(t) && t@
            == "Create an API key (https://platform.openai.com) and export it as an environment variable."@,
        r@[0].1.wire_api == WireApi::Responses,
        r@[0].1.query_params is None,
        r@[0].1.custom_headers is None,
{
    let provider = ModelProviderInfo {
        name: String::from_str("OpenAI"),
        base_url: String::from_str("https://api.openai.com/v1"),
        env_key: Some(String::from_str("OPENAI_API_KEY")),
        env_key_instructions: Some(
            String::from_str(
                "Create an API key (https://platform.openai.com) and export it as an environment variable.",
            ),
        ),
        wire_api: WireApi::Responses,
        query_params: None,
        custom_headers: None,
    };
    let mut r: Vec<(String, ModelProviderInfo)> = Vec::new();
    r.push((String::from_str("openai"), provider));
    r
}

} // verus!
