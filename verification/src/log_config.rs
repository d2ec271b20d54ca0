//! The logging configuration of the placement center: the configured text
//! with the log directory put in place of its `{$path}` marks, read as a
//! log4rs configuration.
use vstd::prelude::*;
use log4rs::config::RawConfig;

verus! {

broadcast use vstd::string::group_string_axioms;

/// `s` with every occurrence of `pattern`, taken from left to right without
/// overlap, replaced by `replacement`. An empty pattern occurs before each
/// character and at the end.
pub open spec fn replace_all(s: Seq<char>, pattern: Seq<char>, replacement: Seq<char>) -> Seq<char>
    decreases s.len(),
{
    if pattern.len() == 0 {
        if s.len() == 0 {
            replacement
        } else {
            replacement + seq![s[0]] + replace_all(s.drop_first(), pattern, replacement)
        }
    } else if s.len() < pattern.len() {
        s
    } else if pattern.is_prefix_of(s) {
        replacement + replace_all(s.skip(pattern.len() as int), pattern, replacement)
    } else {
        seq![s[0]] + replace_all(s.drop_first(), pattern, replacement)
    }
}

/// A text in which the pattern does not occur is left as it is.
pub proof fn lemma_replace_without_pattern(s: Seq<char>, pattern: Seq<char>, replacement: Seq<char>)
    requires
        forall|i: int| 0 <= i <= s.len() ==> !pattern.is_prefix_of(#[trigger] s.skip(i)),
    ensures
        replace_all(s, pattern, replacement) == s,
    decreases s.len(),
{
    if pattern.len() == 0 {
        assert(s.skip(0) =~= s);
        assert(pattern =~= s.skip(0).subrange(0, 0));
    } else if s.len() < pattern.len() {
    } else {
        assert(s.skip(0) =~= s);
        let t = s.drop_first();
        assert forall|i: int| 0 <= i <= t.len() implies !pattern.is_prefix_of(#[trigger] t.skip(i)) by {
            assert(t.skip(i) =~= s.skip(i + 1));
        }
        lemma_replace_without_pattern(t, pattern, replacement);
        assert(s =~= seq![s[0]] + t);
    }
}

/// The characters of `s`.
fn chars_of(s: &str) -> (r: Vec<char>)
    ensures
        r@ == s@,
{
    let mut out: Vec<char> = Vec::new();
    for c in it: s.chars()
        invariant
            out@ == it.seq().take(it.index() as int),
            it.seq() == s@,
    {
        out.push(c);
    }
    out
}

/// Whether `pattern` occurs in `s` at `i`.
fn occurs_at(s: &Vec<char>, pattern: &Vec<char>, i: usize) -> (r: bool)
    requires
        i <= s@.len(),
    ensures
        r == pattern@.is_prefix_of(s@.skip(i as int)),
{
    if pattern.len() > s.len() - i {
        return false;
    }
    let mut j: usize = 0;
    while j < pattern.len()
        invariant
            j <= pattern@.len(),
            i + pattern@.len() <= s@.len(),
            s@.len() == s.len(),
            forall|k: int| 0 <= k < j ==> s@[i + k] == pattern@[k],
        decreases pattern@.len() - j,
    {
        if s[i + j] != pattern[j] {
            assert(s@.skip(i as int).subrange(0, pattern@.len() as int)[j as int] != pattern@[j as int]);
            return false;
        }
        j = j + 1;
    }
    assert(pattern@ =~= s@.skip(i as int).subrange(0, pattern@.len() as int));
    true
}

/// Replacing from a point on is what comes before a match, then the rest.
proof fn lemma_replace_step(s: Seq<char>, pattern: Seq<char>, replacement: Seq<char>, i: int)
    requires
        pattern.len() > 0,
        0 <= i < s.len(),
    ensures
        pattern.is_prefix_of(s.skip(i)) ==> replace_all(s.skip(i), pattern, replacement)
            == replacement + replace_all(s.skip(i + pattern.len()), pattern, replacement),
        !pattern.is_prefix_of(s.skip(i)) ==> replace_all(s.skip(i), pattern, replacement)
            == seq![s[i]] + replace_all(s.skip(i + 1), pattern, replacement),
{
    let t = s.skip(i);
    assert(t.drop_first() =~= s.skip(i + 1));
    if pattern.is_prefix_of(t) {
        assert(t.skip(pattern.len() as int) =~= s.skip(i + pattern.len()));
    } else if t.len() < pattern.len() {
        let u = s.skip(i + 1);
        assert(u.len() < pattern.len());
        assert(replace_all(u, pattern, replacement) == u);
        assert(t =~= seq![s[i]] + u);
    }
}

/// The text `content` with each `{$path}` replaced by `log_path`, as the
/// logging configuration is read.
pub fn placement_center_log_config(content: &str, log_path: &str) -> (r: String)
    ensures
        r@ == replace_all(content@, "{$path}"@, log_path@),
{
    proof {
        reveal_strlit("{$path}");
    }
    let s = chars_of(content);
    let pattern = chars_of("{$path}");
    let ghost p = pattern@;
    let ghost rep = log_path@;
    let n = s.len();
    let m = pattern.len();
    let mut out = String::new();
    let mut start: usize = 0;
    let mut i: usize = 0;
    assert(s@.skip(0) =~= s@);
    assert(s@.subrange(0, 0) =~= Seq::<char>::empty());
    assert(out@ + s@.subrange(0, 0) + replace_all(s@.skip(0), p, rep) =~= replace_all(s@, p, rep));
    while i < n
        invariant
            n == s@.len(),
            m == p.len(),
            p == "{$path}"@,
            p.len() == 7,
            s@ == content@,
            pattern@ == p,
            rep == log_path@,
            start <= i <= n,
            replace_all(s@, p, rep) == out@ + s@.subrange(start as int, i as int)
                + replace_all(s@.skip(i as int), p, rep),
        decreases n - i,
    {
        proof {
            lemma_replace_step(s@, p, rep, i as int);
        }
        if occurs_at(&s, &pattern, i) {
            let piece = content.substring_char(start, i);
            out.append(piece);
            out.append(log_path);
            i = i + m;
            start = i;
            assert(s@.subrange(i as int, i as int) =~= Seq::<char>::empty());
        } else {
            assert(s@.subrange(start as int, i + 1) =~= s@.subrange(start as int, i as int) + seq![s@[i as int]]);
            i = i + 1;
        }
    }
    assert(s@.skip(n as int) =~= Seq::<char>::empty());
    assert(replace_all(s@.skip(n as int), p, rep) =~= Seq::<char>::empty());
    let rest = content.substring_char(start, n);
    out.append(rest);
    out
}

#[verifier::external_type_specification]
#[verifier::external_body]
pub struct ExRawConfig(RawConfig);

/// The error text that serde_yaml gives where it refuses `text` as a log4rs
/// configuration, or `None` where it reads it.
pub uninterp spec fn yaml_config_error(text: Seq<char>) -> Option<Seq<char>>;

/// Reads a log4rs configuration from YAML text with `serde_yaml::from_str`;
/// on refusal the error's text is returned. Whether it refuses, and with
/// what text, is named by `yaml_config_error`. The configuration read holds
/// hash maps whose hasher each process seeds, so it gets no name, and what
/// it holds is not stated.
#[verifier::external_body]
fn parse_raw_config(text: &str) -> (r: Result<RawConfig, String>)
    ensures
        r is Err <==> yaml_config_error(text@) is Some,
        r matches Err(e) ==> yaml_config_error(text@) == Some(e@),
{
    serde_yaml::from_str::<RawConfig>(text).map_err(|e| e.to_string())
}

/// The message for a logging configuration that does not parse.
pub open spec fn log_config_failure(log_config: Seq<char>, detail: Seq<char>) -> Seq<char> {
    "Failed to parse the contents of the config file "@ + log_config + " with error message :"@
        + detail
}

/// Reads the logging configuration `content`, found in the file
/// `log_config`, once each `{$path}` is replaced by the log directory
/// `log_path`.
pub fn load_log_config(content: &str, log_path: &str, log_config: &str) -> (r: Result<RawConfig, String>)
    ensures
        r is Err <==> yaml_config_error(replace_all(content@, "{$path}"@, log_path@)) is Some,
        r matches Err(m) ==> m@ == log_config_failure(
            log_config@,
            yaml_config_error(replace_all(content@, "{$path}"@, log_path@))->0,
        ),
{
    let config_content = placement_center_log_config(content, log_path);
    match parse_raw_config(config_content.as_str()) {
        Ok(config) => Ok(config),
        Err(e) => {
            let mut m = String::from_str("Failed to parse the contents of the config file ");
            m.append(log_config);
            m.append(" with error message :");
            m.append(e.as_str());
            Err(m)
        },
    }
}

} // verus!
