//! AI service settings, provider recognition and the health-check reply protocol.
use vstd::prelude::*;
use crate::text::{
    chars_of, contains, contains_exec, find, find_from_exec, lemma_find_in_range, lower,
    lower_exec, push_str, slice, starts_with, starts_with_exec, string_of,
    strip_prefixes, strip_prefixes_exec, trim, trim_chars,
};

verus! {

/// The settings of the OpenAI-compatible chat service.
pub struct AiConfig {
    pub base_url: String,
    pub api_key: String,
    pub model: String,
    pub web_search_enabled: bool,
    pub custom_request_json: String,
}

/// The request JSON that new settings start with: `tool_choice` set to `auto` and a
/// `web_search` function tool appended.
pub open spec fn default_custom_json_text() -> Seq<char> {
    "{\n  \"$set\": {\n    \"tool_choice\": \"auto\"\n  },\n  \"$append\": {\n    \"tools\": [\n      {\n        \"type\": \"function\",\n        \"function\": {\n          \"name\": \"web_search\",\n          \"description\": \"Search the web for current information\",\n          \"parameters\": {\n            \"type\": \"object\",\n            \"properties\": {\n              \"query\": {\n                \"type\": \"string\",\n                \"description\": \"The search query\"\n              }\n            },\n            \"required\": [\"query\"]\n          }\n        }\n      }\n    ]\n  }\n}"@
}

/// The custom request JSON of new settings.
pub fn default_custom_request_json() -> (s: String)
    ensures
        s@ == default_custom_json_text(),
{
    let mut s = String::new();
    push_str(
        &mut s,
        "{\n  \"$set\": {\n    \"tool_choice\": \"auto\"\n  },\n  \"$append\": {\n    \"tools\": [\n      {\n        \"type\": \"function\",\n        \"function\": {\n          \"name\": \"web_search\",\n          \"description\": \"Search the web for current information\",\n          \"parameters\": {\n            \"type\": \"object\",\n            \"properties\": {\n              \"query\": {\n                \"type\": \"string\",\n                \"description\": \"The search query\"\n              }\n            },\n            \"required\": [\"query\"]\n          }\n        }\n      }\n    ]\n  }\n}",
    );
    s
}

impl Default for AiConfig {
    fn default() -> (c: Self)
        ensures
            c.base_url@ == "https://api.openai.com/v1"@,
            c.api_key@ == Seq::<char>::empty(),
            c.model@ == "gpt-4o-mini"@,
            !c.web_search_enabled,
            c.custom_request_json@ == default_custom_json_text(),
    {
        let mut base_url = String::new();
        push_str(&mut base_url, "https://api.openai.com/v1");
        let mut model = String::new();
        push_str(&mut model, "gpt-4o-mini");
        AiConfig {
            base_url,
            api_key: String::new(),
            model,
            web_search_enabled: false,
            custom_request_json: default_custom_request_json(),
        }
    }
}

/// The text up to the first `/`.
pub open spec fn before_slash(s: Seq<char>) -> Seq<char> {
    match find(s, seq!['/']) {
        Some(k) => s.take(k),
        None => s,
    }
}

/// The host of a base URL: trimmed, `https://` and `http://` prefixes dropped, cut at the
/// first `/`, ASCII letters lower-cased.
pub open spec fn host_of(base_url: Seq<char>) -> Seq<char> {
    lower(before_slash(strip_prefixes(strip_prefixes(trim(base_url), "https://"@), "http://"@)))
}

/// A Xiaomi MiMo host.
pub open spec fn mimo_host(h: Seq<char>) -> bool {
    contains(h, "mimo.mi.com"@) || contains(h, "xiaomimimo.com"@) || contains(h, "mimo-v2.com"@)
}

/// An xAI host.
pub open spec fn xai_host(h: Seq<char>) -> bool {
    contains(h, "api.x.ai"@) || contains(h, "x.ai"@)
}

/// A provider whose requests carry a web-search template of their own.
pub open spec fn native_search(base_url: Seq<char>) -> bool {
    let h = host_of(base_url);
    mimo_host(h) || contains(h, "openrouter.ai"@) || xai_host(h)
}

/// Web search is asked for: switched on in the settings, or built into the provider.
pub open spec fn search_requested(enabled: bool, base_url: Seq<char>) -> bool {
    enabled || native_search(base_url)
}

/// The host part of a base URL.
pub fn provider_host(base_url: &str) -> (h: String)
    ensures
        h@ == host_of(base_url@),
{
    let v = host_chars(base_url);
    string_of(&v)
}

/// `host_of` as characters.
pub fn host_chars(base_url: &str) -> (h: Vec<char>)
    ensures
        h@ == host_of(base_url@),
{
    let t = trim_chars(&chars_of(base_url));
    let https = chars_of("https://");
    let http = chars_of("http://");
    proof {
        reveal_strlit("https://");
        reveal_strlit("http://");
    }
    let t = strip_prefixes_exec(&t, &https);
    let t = strip_prefixes_exec(&t, &http);
    let slash: Vec<char> = vec!['/'];
    assert(slash@ =~= seq!['/']);
    let cut = match find_from_exec(&t, &slash, 0) {
        Some(k) => {
            proof {
                lemma_find_in_range(t@, slash@, 0);
            }
            assert(t@.subrange(0, k as int) == t@.take(k as int));
            slice(&t, 0, k)
        },
        None => t,
    };
    lower_exec(&cut)
}

/// Whether a host is a Xiaomi MiMo host.
pub fn is_mimo_host(host: &Vec<char>) -> (b: bool)
    ensures
        b == mimo_host(host@),
{
    contains_exec(host, &chars_of("mimo.mi.com")) || contains_exec(host, &chars_of("xiaomimimo.com"))
        || contains_exec(host, &chars_of("mimo-v2.com"))
}

/// Whether a host is an xAI host.
pub fn is_xai_host(host: &Vec<char>) -> (b: bool)
    ensures
        b == xai_host(host@),
{
    contains_exec(host, &chars_of("api.x.ai")) || contains_exec(host, &chars_of("x.ai"))
}

/// Whether the provider at `base_url` has a web-search template of its own.
pub fn provider_has_native_search(base_url: &str) -> (b: bool)
    ensures
        b == native_search(base_url@),
{
    let h = host_chars(base_url);
    is_mimo_host(&h) || contains_exec(&h, &chars_of("openrouter.ai")) || is_xai_host(&h)
}

/// Whether requests under `config` ask for web search.
pub fn web_search_requested(config: &AiConfig) -> (b: bool)
    ensures
        b == search_requested(config.web_search_enabled, config.base_url@),
{
    config.web_search_enabled || provider_has_native_search(config.base_url.as_str())
}

/// The name of the web-search template that applies to a provider.
pub open spec fn profile_label(base_url: Seq<char>) -> Seq<char> {
    let h = host_of(base_url);
    if mimo_host(h) {
        "MiMo 原生 web_search"@
    } else if contains(h, "openrouter.ai"@) {
        "OpenRouter web 插件"@
    } else if xai_host(h) {
        "xAI web_search"@
    } else if contains(h, "perplexity.ai"@) {
        "Perplexity Sonar 通常模型自带联网"@
    } else if contains(h, "deepseek.com"@) {
        "DeepSeek API 未检测到原生联网模板"@
    } else {
        "未知服务商，仅应用自定义 JSON"@
    }
}

/// Names the web-search template that the settings dialog shows for a base URL.
pub fn native_search_profile_label(base_url: &str) -> (s: &'static str)
    ensures
        s@ == profile_label(base_url@),
{
    let h = host_chars(base_url);
    if is_mimo_host(&h) {
        "MiMo 原生 web_search"
    } else if contains_exec(&h, &chars_of("openrouter.ai")) {
        "OpenRouter web 插件"
    } else if is_xai_host(&h) {
        "xAI web_search"
    } else if contains_exec(&h, &chars_of("perplexity.ai")) {
        "Perplexity Sonar 通常模型自带联网"
    } else if contains_exec(&h, &chars_of("deepseek.com")) {
        "DeepSeek API 未检测到原生联网模板"
    } else {
        "未知服务商，仅应用自定义 JSON"
    }
}

/// The message a successful connection test shows.
pub open spec fn connection_message(reply: Seq<char>, enabled: bool, base_url: Seq<char>) -> Seq<
    char,
> {
    if search_requested(enabled, base_url) {
        reply + "；联网参数已随测试请求发送"@
    } else {
        reply
    }
}

/// The reply of a successful connection test, noting when web-search parameters were sent.
pub fn connection_test_success_message(reply: String, config: &AiConfig) -> (s: String)
    ensures
        s@ == connection_message(reply@, config.web_search_enabled, config.base_url@),
{
    if web_search_requested(config) {
        let mut s = reply;
        push_str(&mut s, "；联网参数已随测试请求发送");
        s
    } else {
        reply
    }
}

/// A system prompt followed by the environment description.
pub open spec fn wrapped_system(base: Seq<char>, context: Seq<char>) -> Seq<char> {
    base + "\n\n"@ + context
}

/// Appends the environment description to a system prompt.
pub fn wrap_system(base: &str, context: &str) -> (s: String)
    ensures
        s@ == wrapped_system(base@, context@),
{
    let mut s = String::new();
    push_str(&mut s, base);
    push_str(&mut s, "\n\n");
    push_str(&mut s, context);
    s
}

/// What the AI answers in a health-check round.
#[derive(Debug, PartialEq, Eq)]
pub enum HealthCheckReply {
    NeedPaths(Vec<String>),
    Report(String),
}

/// A health-check reply as plain sequences.
pub enum ReplySpec {
    NeedPaths(Seq<Seq<char>>),
    Report(Seq<char>),
}

/// The views of a list of strings.
pub open spec fn views(v: Seq<String>) -> Seq<Seq<char>> {
    v.map_values(|s: String| s@)
}

impl HealthCheckReply {
    /// The reply as plain sequences.
    pub open spec fn spec(&self) -> ReplySpec {
        match self {
            HealthCheckReply::NeedPaths(v) => ReplySpec::NeedPaths(views(v@)),
            HealthCheckReply::Report(r) => ReplySpec::Report(r@),
        }
    }
}

/// What `serde_json::from_str::<Vec<String>>` gives for a text: the strings of a JSON array,
/// or the text of its error.
pub uninterp spec fn json_string_list(text: Seq<char>) -> Result<Seq<Seq<char>>, Seq<char>>;

/// `serde_json::from_str::<Vec<String>>`, its error turned into its `Display` text.
/// The contract claims only that the outcome is a function of the text.
#[verifier::external_body]
fn parse_json_string_list(text: &str) -> (r: Result<Vec<String>, String>)
    ensures
        match r {
            Ok(v) => json_string_list(text@) == Ok::<Seq<Seq<char>>, Seq<char>>(views(v@)),
            Err(e) => json_string_list(text@) == Err::<Seq<Seq<char>>, Seq<char>>(e@),
        },
{
    match serde_json::from_str::<Vec<String>>(text) {
        Ok(v) => Ok(v),
        Err(e) => Err(e.to_string()),
    }
}

/// The last index of `c` in `s.take(j)`.
pub open spec fn last_index_before(s: Seq<char>, c: char, j: int) -> Option<int>
    decreases j,
{
    if j <= 0 || j > s.len() {
        None
    } else if s[j - 1] == c {
        Some(j - 1)
    } else {
        last_index_before(s, c, j - 1)
    }
}

/// `str::rfind` for one character.
pub open spec fn last_index(s: Seq<char>, c: char) -> Option<int> {
    last_index_before(s, c, s.len() as int)
}

/// The requested paths: each trimmed, blank ones dropped.
pub open spec fn kept_paths_all(ps: Seq<Seq<char>>) -> Seq<Seq<char>>
    decreases ps.len(),
{
    if ps.len() == 0 {
        Seq::empty()
    } else if trim(ps.last()).len() > 0 {
        kept_paths_all(ps.drop_last()).push(trim(ps.last()))
    } else {
        kept_paths_all(ps.drop_last())
    }
}

/// The requested paths that are kept: the first six non-blank ones, trimmed.
pub open spec fn kept_paths(ps: Seq<Seq<char>>) -> Seq<Seq<char>> {
    let all = kept_paths_all(ps);
    if all.len() <= 6 {
        all
    } else {
        all.take(6)
    }
}

/// A `NEED_PATHS` reply whose last `]` comes more than one place before its first `[`:
/// the text between them cannot be sliced.
pub open spec fn reply_out_of_order(text: Seq<char>) -> bool {
    let t = trim(text);
    &&& t.len() > 0
    &&& !starts_with(t, "REPORT"@)
    &&& starts_with(t, "NEED_PATHS"@)
    &&& find(t, seq!['[']) matches Some(a)
    &&& last_index(t, ']') matches Some(b)
    &&& b + 1 < a
}

/// How a health-check reply reads: empty is an error; `REPORT` followed by text is a report;
/// `NEED_PATHS` followed by a JSON array of strings asks for those paths; anything else
/// is taken as the report itself.
pub open spec fn parse_reply(text: Seq<char>) -> Result<ReplySpec, Seq<char>> {
    let t = trim(text);
    if t.len() == 0 {
        Err("健康检查 AI 返回空内容"@)
    } else if starts_with(t, "REPORT"@) {
        let r = trim(t.skip("REPORT"@.len() as int));
        if r.len() == 0 {
            Err("健康检查 REPORT 内容为空"@)
        } else {
            Ok(ReplySpec::Report(r))
        }
    } else if starts_with(t, "NEED_PATHS"@) {
        match find(t, seq!['[']) {
            None => Err("NEED_PATHS 缺少 JSON 数组"@),
            Some(a) => match last_index(t, ']') {
                None => Err("NEED_PATHS 缺少 JSON 数组结束"@),
                Some(b) => match json_string_list(t.subrange(a, b + 1)) {
                    Err(e) => Err("解析 NEED_PATHS 失败: "@ + e),
                    Ok(ps) => Ok(ReplySpec::NeedPaths(kept_paths(ps))),
                },
            },
        }
    } else {
        Ok(ReplySpec::Report(t))
    }
}

/// Every kept path is non-blank and already trimmed.
pub proof fn lemma_kept_paths_all(ps: Seq<Seq<char>>)
    ensures
        kept_paths_all(ps).len() <= ps.len(),
        forall|k: int|
            0 <= k < kept_paths_all(ps).len() ==> #[trigger] kept_paths_all(ps)[k].len() > 0
                && trim(kept_paths_all(ps)[k]) == kept_paths_all(ps)[k],
    decreases ps.len(),
{
    if ps.len() > 0 {
        lemma_kept_paths_all(ps.drop_last());
        crate::text::lemma_trim_trim(ps.last());
    }
}

/// What a health-check reply reads as: a path request holds at most six paths, each
/// non-blank and trimmed; a report is non-blank and trimmed.
pub proof fn lemma_reply_shape(text: Seq<char>)
    ensures
        parse_reply(text) matches Ok(ReplySpec::NeedPaths(ps)) ==> ps.len() <= 6 && forall|k: int|
            0 <= k < ps.len() ==> #[trigger] ps[k].len() > 0 && trim(ps[k]) == ps[k],
        parse_reply(text) matches Ok(ReplySpec::Report(r)) ==> r.len() > 0 && trim(r) == r,
{
    let t = trim(text);
    crate::text::lemma_trim_trim(text);
    if t.len() > 0 && starts_with(t, "REPORT"@) {
        crate::text::lemma_trim_trim(t.skip("REPORT"@.len() as int));
    } else if t.len() > 0 && starts_with(t, "NEED_PATHS"@) {
        if let (Some(a), Some(b)) = (find(t, seq!['[']), last_index(t, ']')) {
            if let Ok(ps) = json_string_list(t.subrange(a, b + 1)) {
                lemma_kept_paths_all(ps);
            }
        }
    }
}

/// The view of a parse result.
pub open spec fn reply_result(r: Result<HealthCheckReply, String>) -> Result<ReplySpec, Seq<char>> {
    match r {
        Ok(h) => Ok(h.spec()),
        Err(e) => Err(e@),
    }
}

/// The last index of `c` in `s`.
pub fn last_index_exec(s: &Vec<char>, c: char) -> (r: Option<usize>)
    ensures
        r matches Some(i) ==> last_index(s@, c) == Some(i as int),
        r is None ==> last_index(s@, c) is None,
{
    let mut j = s.len();
    while j > 0 && s[j - 1] != c
        invariant
            j <= s.len(),
            last_index(s@, c) == last_index_before(s@, c, j as int),
        decreases j,
    {
        j -= 1;
    }
    if j == 0 {
        None
    } else {
        Some(j - 1)
    }
}

/// A string made from the characters `s[a..b]`.
fn string_of_slice(s: &Vec<char>, a: usize, b: usize) -> (out: String)
    requires
        a <= b <= s.len(),
    ensures
        out@ == s@.subrange(a as int, b as int),
{
    string_of(&slice(s, a, b))
}

/// Reads the AI's answer in a health-check round.
pub fn parse_health_check_reply(text: &str) -> (r: Result<HealthCheckReply, String>)
    requires
        !reply_out_of_order(text@),
    ensures
        reply_result(r) == parse_reply(text@),
{
    let t = trim_chars(&chars_of(text));
    if t.len() == 0 {
        let mut e = String::new();
        push_str(&mut e, "健康检查 AI 返回空内容");
        return Err(e);
    }
    let report = chars_of("REPORT");
    if starts_with_exec(&t, &report) {
        let rest = trim_chars(&slice(&t, report.len(), t.len()));
        assert(t@.subrange(report@.len() as int, t@.len() as int) == t@.skip(report@.len() as int));
        if rest.len() == 0 {
            let mut e = String::new();
            push_str(&mut e, "健康检查 REPORT 内容为空");
            return Err(e);
        }
        return Ok(HealthCheckReply::Report(string_of(&rest)));
    }
    let need = chars_of("NEED_PATHS");
    if starts_with_exec(&t, &need) {
        let open: Vec<char> = vec!['['];
        assert(open@ =~= seq!['[']);
        let a = match find_from_exec(&t, &open, 0) {
            Some(a) => a,
            None => {
                let mut e = String::new();
                push_str(&mut e, "NEED_PATHS 缺少 JSON 数组");
                return Err(e);
            },
        };
        let b = match last_index_exec(&t, ']') {
            Some(b) => b,
            None => {
                let mut e = String::new();
                push_str(&mut e, "NEED_PATHS 缺少 JSON 数组结束");
                return Err(e);
            },
        };
        proof {
            lemma_find_in_range(t@, open@, 0);
            lemma_last_index_range(t@, ']', t@.len() as int);
        }
        let inner = string_of_slice(&t, a, b + 1);
        return need_paths_reply(parse_json_string_list(inner.as_str()));
    }
    Ok(HealthCheckReply::Report(string_of(&t)))
}

/// Whether a reply can be read: a `NEED_PATHS` reply must not have its last `]` more than
/// one place before its first `[`.
pub fn reply_in_order(text: &str) -> (b: bool)
    ensures
        b == !reply_out_of_order(text@),
{
    let t = trim_chars(&chars_of(text));
    if t.len() == 0 {
        return true;
    }
    if starts_with_exec(&t, &chars_of("REPORT")) {
        return true;
    }
    if !starts_with_exec(&t, &chars_of("NEED_PATHS")) {
        return true;
    }
    let open: Vec<char> = vec!['['];
    assert(open@ =~= seq!['[']);
    match (find_from_exec(&t, &open, 0), last_index_exec(&t, ']')) {
        (Some(a), Some(b)) => {
            proof {
                lemma_last_index_range(t@, ']', t@.len() as int);
            }
            b + 1 >= a
        },
        _ => true,
    }
}

/// The path request read from the parsed JSON array of a `NEED_PATHS` reply: the first six
/// non-blank paths, trimmed; a parse error is reported with its text.
pub open spec fn need_paths_result(parsed: Result<Seq<Seq<char>>, Seq<char>>) -> Result<ReplySpec, Seq<char>> {
    match parsed {
        Err(e) => Err("解析 NEED_PATHS 失败: "@ + e),
        Ok(ps) => Ok(ReplySpec::NeedPaths(kept_paths(ps))),
    }
}

/// The path request read from the parsed JSON array of a `NEED_PATHS` reply.
pub fn need_paths_reply(parsed: Result<Vec<String>, String>) -> (r: Result<HealthCheckReply, String>)
    ensures
        reply_result(r) == need_paths_result(match parsed {
            Ok(v) => Ok(views(v@)),
            Err(e) => Err(e@),
        }),
{
    match parsed {
        Err(msg) => {
            let mut e = String::new();
            push_str(&mut e, "解析 NEED_PATHS 失败: ");
            push_str(&mut e, msg.as_str());
            Err(e)
        },
        Ok(ps) => Ok(HealthCheckReply::NeedPaths(keep_paths(&ps))),
    }
}

/// `last_index_before` lies below `j`.
pub proof fn lemma_last_index_range(s: Seq<char>, c: char, j: int)
    ensures
        last_index_before(s, c, j) matches Some(i) ==> 0 <= i < j && i < s.len(),
    decreases j,
{
    if 0 < j <= s.len() && s[j - 1] != c {
        lemma_last_index_range(s, c, j - 1);
    }
}

/// The first six non-blank requested paths, trimmed.
pub fn keep_paths(ps: &Vec<String>) -> (out: Vec<String>)
    ensures
        views(out@) == kept_paths(views(ps@)),
{
    let ghost pv = views(ps@);
    let mut out: Vec<String> = Vec::new();
    let mut i: usize = 0;
    while i < ps.len()
        invariant
            i <= ps.len(),
            pv == views(ps@),
            views(out@) == kept_paths_all(pv.take(i as int)),
        decreases ps.len() - i,
    {
        assert(pv.take(i + 1).drop_last() == pv.take(i as int));
        assert(pv.take(i + 1).last() == ps@[i as int]@);
        let p = trim_chars(&chars_of(ps[i].as_str()));
        if p.len() > 0 {
            let ghost before = views(out@);
            out.push(string_of(&p));
            assert(views(out@) == before.push(p@));
        }
        i += 1;
    }
    assert(pv.take(ps.len() as int) == pv);
    if out.len() > 6 {
        let ghost all = views(out@);
        out.truncate(6);
        assert(views(out@) == all.take(6));
    }
    out
}

/// The report of a final-round reply: a report must not be blank, and a path request
/// is not a report.
pub open spec fn final_report(r: ReplySpec) -> Result<Seq<char>, Seq<char>> {
    match r {
        ReplySpec::Report(t) => if trim(t).len() == 0 {
            Err("健康检查 REPORT 内容为空"@)
        } else {
            Ok(t)
        },
        ReplySpec::NeedPaths(_) => Err("AI 未在最终轮次返回报告"@),
    }
}

/// The view of a text result.
pub open spec fn text_result(r: Result<String, String>) -> Result<Seq<char>, Seq<char>> {
    match r {
        Ok(t) => Ok(t@),
        Err(e) => Err(e@),
    }
}

impl HealthCheckReply {
    /// The report that a final-round reply carries.
    pub fn into_report(self) -> (r: Result<String, String>)
        ensures
            text_result(r) == final_report(self.spec()),
    {
        match self {
            HealthCheckReply::Report(report) => {
                let t = trim_chars(&chars_of(report.as_str()));
                if t.len() == 0 {
                    let mut e = String::new();
                    push_str(&mut e, "健康检查 REPORT 内容为空");
                    Err(e)
                } else {
                    Ok(report)
                }
            },
            HealthCheckReply::NeedPaths(_) => {
                let mut e = String::new();
                push_str(&mut e, "AI 未在最终轮次返回报告");
                Err(e)
            },
        }
    }
}

} // verus!
