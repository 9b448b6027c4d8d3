//! Data model: wordlist candidates, the normalized target, probe
//! responses, classified outcomes, and the engine configuration.

use vstd::prelude::*;
use vstd::string::StrSliceExecFns;
use vstd::string::StringExecFns;

verus! {

/// A wordlist entry is acceptable when it is non-empty and carries no
/// embedded newline.
pub open spec fn candidate_ok(s: Seq<char>) -> bool {
    &&& s.len() > 0
    &&& forall|i: int| 0 <= i < s.len() ==> s[i] != '\n'
}

/// One wordlist entry: a path segment to be tested against the target.
pub struct Candidate {
    text: String,
}

impl View for Candidate {
    type V = Seq<char>;

    closed spec fn view(&self) -> Seq<char> {
        self.text@
    }
}

impl Candidate {
    /// A candidate is well formed when its text satisfies [`candidate_ok`].
    pub open spec fn wf(&self) -> bool {
        candidate_ok(self@)
    }

    /// Accepts exactly the non-empty tokens free of embedded newlines.
    pub fn new(text: String) -> (r: Option<Candidate>)
        ensures
            r is Some <==> candidate_ok(text@),
            r matches Some(c) ==> c@ == text@ && c.wf(),
    {
        let n = text.as_str().unicode_len();
        if n == 0 {
            return None;
        }
        let mut i: usize = 0;
        while i < n
            invariant
                n == text@.len(),
                0 <= i <= n,
                forall|j: int| 0 <= j < i ==> text@[j] != '\n',
            decreases n - i,
        {
            if text.as_str().get_char(i) == '\n' {
                return None;
            }
            i += 1;
        }
        Some(Candidate { text })
    }

    /// The candidate's text.
    pub fn as_str(&self) -> (s: &str)
        ensures
            s@ == self@,
    {
        self.text.as_str()
    }
}

impl Clone for Candidate {
    fn clone(&self) -> (c: Self)
        ensures
            c@ == self@,
    {
        Candidate { text: self.text.clone() }
    }
}

/// A base URL is normalized when it does not end in `'/'`.
pub open spec fn normalized(s: Seq<char>) -> bool {
    s.len() == 0 || s[s.len() - 1] != '/'
}

/// The base URL with every trailing `'/'` removed.
pub open spec fn spec_normalize(s: Seq<char>) -> Seq<char>
    decreases s.len(),
{
    if s.len() > 0 && s[s.len() - 1] == '/' {
        spec_normalize(s.drop_last())
    } else {
        s
    }
}

/// The immutable base URL, normalized once at construction.
pub struct Target {
    base: String,
}

impl View for Target {
    type V = Seq<char>;

    closed spec fn view(&self) -> Seq<char> {
        self.base@
    }
}

impl Target {
    /// A target is well formed when its base URL is [`normalized`].
    pub open spec fn wf(&self) -> bool {
        normalized(self@)
    }

    /// Builds the target from a raw base URL, stripping every trailing
    /// slash.
    pub fn new(base: &str) -> (t: Target)
        ensures
            t@ == spec_normalize(base@),
            t.wf(),
    {
        let n = base.unicode_len();
        let mut cut: usize = n;
        while cut > 0 && base.get_char(cut - 1) == '/'
            invariant
                n == base@.len(),
                0 <= cut <= n,
                forall|j: int| cut <= j < n ==> base@[j] == '/',
            decreases cut,
        {
            cut -= 1;
        }
        let kept = base.substring_char(0, cut);
        proof {
            lemma_normalize_prefix(base@, cut as int);
        }
        Target { base: kept.to_owned() }
    }

    /// The normalized base URL.
    pub fn as_str(&self) -> (s: &str)
        ensures
            s@ == self@,
    {
        self.base.as_str()
    }
}

impl Clone for Target {
    fn clone(&self) -> (t: Self)
        ensures
            t@ == self@,
    {
        Target { base: self.base.clone() }
    }
}

/// When every character of `s` from position `cut` on is a slash and
/// nothing before `cut` ends in one, normalizing `s` keeps exactly the
/// first `cut` characters.
proof fn lemma_normalize_prefix(s: Seq<char>, cut: int)
    requires
        0 <= cut <= s.len(),
        forall|j: int| cut <= j < s.len() ==> s[j] == '/',
        cut > 0 ==> s[cut - 1] != '/',
    ensures
        spec_normalize(s) == s.subrange(0, cut),
    decreases s.len(),
{
    if s.len() > 0 && s[s.len() - 1] == '/' {
        assert(cut < s.len());
        lemma_normalize_prefix(s.drop_last(), cut);
        assert(s.drop_last().subrange(0, cut) =~= s.subrange(0, cut));
    } else {
        assert(cut == s.len());
        assert(s.subrange(0, cut) =~= s);
    }
}

/// The transport-level reason a probe failed to produce an HTTP response.
#[derive(Clone, Copy, Debug, PartialEq, Eq, Structural)]
pub enum ErrorKind {
    Timeout,
    Connection,
    Dns,
    Tls,
    Other,
}

/// What a single probe attempt yielded before classification: any HTTP
/// response at all counts as a status, and only transport-level trouble
/// counts as an error.
pub enum ProbeResponse {
    Status(u16),
    Transport(ErrorKind, String),
}

/// The classified result of probing one candidate.
pub enum Outcome {
    Success { candidate: String, status: u16 },
    Failure { candidate: String, kind: ErrorKind, message: String },
}

impl Outcome {
    /// The candidate this outcome belongs to.
    pub open spec fn candidate_view(&self) -> Seq<char> {
        match self {
            Outcome::Success { candidate, .. } => candidate@,
            Outcome::Failure { candidate, .. } => candidate@,
        }
    }

    pub open spec fn is_success(&self) -> bool {
        self is Success
    }

    pub open spec fn spec_status(&self) -> u16
        recommends
            self is Success,
    {
        match self {
            Outcome::Success { status, .. } => *status,
            Outcome::Failure { .. } => 0,
        }
    }

    pub open spec fn spec_kind(&self) -> ErrorKind
        recommends
            self is Failure,
    {
        match self {
            Outcome::Success { .. } => ErrorKind::Other,
            Outcome::Failure { kind, .. } => *kind,
        }
    }

    pub open spec fn message_view(&self) -> Seq<char>
        recommends
            self is Failure,
    {
        match self {
            Outcome::Success { .. } => Seq::empty(),
            Outcome::Failure { message, .. } => message@,
        }
    }
}

/// Exactly when `o` is the classification of response `r` for the
/// candidate text `cand`: an HTTP status of any class is a success, and a
/// transport error is a failure carrying its kind and message.
pub open spec fn spec_classified(cand: Seq<char>, r: ProbeResponse, o: Outcome) -> bool {
    &&& o.candidate_view() == cand
    &&& match r {
        ProbeResponse::Status(s) => o.is_success() && o.spec_status() == s,
        ProbeResponse::Transport(k, m) => !o.is_success() && o.spec_kind() == k
            && o.message_view() == m@,
    }
}

/// Turns one probe response into the outcome reported for `candidate`.
/// A 404 or 500 response is still a successful probe; failure is reserved
/// for transport-level problems.
pub fn classify(candidate: &Candidate, response: ProbeResponse) -> (o: Outcome)
    ensures
        spec_classified(candidate@, response, o),
{
    let text = String::from_str(candidate.as_str());
    match response {
        ProbeResponse::Status(status) => Outcome::Success { candidate: text, status },
        ProbeResponse::Transport(kind, message) => Outcome::Failure {
            candidate: text,
            kind,
            message,
        },
    }
}

/// The engine configuration: a plain value object fixed for one run.
pub struct Config {
    /// Upper bound on simultaneously in-flight probes; must be positive.
    pub concurrency: usize,
    /// Per-request timeout in milliseconds.
    pub timeout_ms: u64,
    /// The User-Agent header sent with every probe.
    pub user_agent: String,
    /// Caps how many candidates are processed, when present.
    pub max_candidates: Option<usize>,
}

/// A misconfiguration detected before any probing starts.
#[derive(Clone, Copy, Debug, PartialEq, Eq, Structural)]
pub enum SetupError {
    /// The concurrency limit was zero.
    ZeroConcurrency,
}

} // verus!
