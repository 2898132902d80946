use vstd::prelude::*;
use crate::parser::markdown::concat;
use crate::text::{chars_of, push_signed_decimal, push_str, replace_all, replace_all_exec, signed_decimal, string_of};

verus! {

/// The character of a 6-bit value in base64's standard alphabet
/// (`A`-`Z`, `a`-`z`, `0`-`9`, `+`, `/`).
pub open spec fn base64_digit(v: int) -> char {
    if v < 26 {
        (65 + v) as char
    } else if v < 52 {
        (97 + v - 26) as char
    } else if v < 62 {
        (48 + v - 52) as char
    } else if v == 62 {
        '+'
    } else {
        '/'
    }
}

/// Standard base64 with padding: each three bytes become four characters; a
/// last group of one or two bytes is padded with '='.
pub open spec fn base64_spec(b: Seq<u8>) -> Seq<char>
    decreases b.len(),
{
    if b.len() == 0 {
        Seq::empty()
    } else if b.len() == 1 {
        seq![base64_digit((b[0] as int) / 4), base64_digit(((b[0] as int) % 4) * 16), '=', '=']
    } else if b.len() == 2 {
        seq![
            base64_digit((b[0] as int) / 4),
            base64_digit(((b[0] as int) % 4) * 16 + (b[1] as int) / 16),
            base64_digit(((b[1] as int) % 16) * 4),
            '=',
        ]
    } else {
        seq![
            base64_digit((b[0] as int) / 4),
            base64_digit(((b[0] as int) % 4) * 16 + (b[1] as int) / 16),
            base64_digit(((b[1] as int) % 16) * 4 + (b[2] as int) / 64),
            base64_digit((b[2] as int) % 64),
        ] + base64_spec(b.subrange(3, b.len() as int))
    }
}

/// What base64's `STANDARD` engine writes for the UTF-8 bytes of a text.
pub open spec fn base64_of_text(t: Seq<char>) -> Seq<char> {
    base64_spec(vstd::utf8::encode_utf8(t))
}

/// Encodes the UTF-8 bytes of a text with base64's `STANDARD.encode`:
/// standard alphabet, with padding (see `base64_spec`).
#[verifier::external_body]
fn base64_encode_text(t: &str) -> (r: String)
    ensures
        r@ == base64_of_text(t@),
{
    base64::Engine::encode(&base64::engine::general_purpose::STANDARD, t)
}

/// The Daytona sandbox service.
pub struct Daytona {
    api_key: String,
    api_url: String,
}

impl Daytona {
    /// A client for the given key, at the given address or else at
    /// `https://api.daytona.io`.
    pub fn from_values(api_key: String, api_url: Option<String>) -> (r: Daytona)
        ensures
            r.key() == api_key@,
            r.url() == match api_url {
                Some(u) => u@,
                None => "https://api.daytona.io"@,
            },
    {
        let api_url = match api_url {
            Some(u) => u,
            None => "https://api.daytona.io".to_string(),
        };
        Daytona { api_key, api_url }
    }

    pub closed spec fn key(&self) -> Seq<char> {
        self.api_key@
    }

    pub closed spec fn url(&self) -> Seq<char> {
        self.api_url@
    }

    /// The provider's name.
    pub fn name(&self) -> (r: &'static str)
        ensures
            r@ == "daytona"@,
    {
        "daytona"
    }

    /// The address of the service.
    pub fn base_url(&self) -> (r: &str)
        ensures
            r@ == self.url(),
    {
        self.api_url.as_str()
    }

    /// The `Authorization` header: the key as a bearer token.
    pub fn auth_header(&self) -> (r: Result<String, String>)
        ensures
            r matches Ok(h) && h@ == "Bearer "@ + self.key(),
    {
        Ok(concat("Bearer ", self.api_key.as_str()))
    }
}

/// The Modal sandbox service.
pub struct Modal {
    token_id: String,
    token_secret: String,
}

impl Modal {
    /// A client for the given token.
    pub fn from_values(token_id: String, token_secret: String) -> (r: Modal)
        ensures
            r.id() == token_id@,
            r.secret() == token_secret@,
    {
        Modal { token_id, token_secret }
    }

    pub closed spec fn id(&self) -> Seq<char> {
        self.token_id@
    }

    pub closed spec fn secret(&self) -> Seq<char> {
        self.token_secret@
    }

    /// The provider's name.
    pub fn name(&self) -> (r: &'static str)
        ensures
            r@ == "modal"@,
    {
        "modal"
    }

    /// The address of the service.
    pub fn base_url(&self) -> (r: &'static str)
        ensures
            r@ == "https://api.modal.com/v1"@,
    {
        "https://api.modal.com/v1"
    }

    /// The `Authorization` header: basic authentication with
    /// `token_id:token_secret` in base64.
    pub fn auth_header(&self) -> (r: Result<String, String>)
        ensures
            r matches Ok(h) && h@ == "Basic "@ + base64_of_text(self.id() + seq![':'] + self.secret()),
    {
        let mut cred: Vec<char> = Vec::new();
        push_str(&mut cred, self.token_id.as_str());
        cred.push(':');
        push_str(&mut cred, self.token_secret.as_str());
        let c = string_of(&cred);
        assert(c@ =~= self.id() + seq![':'] + self.secret());
        let enc = base64_encode_text(c.as_str());
        Ok(concat("Basic ", enc.as_str()))
    }
}

/// The path of an operation on a sandbox: `/sandbox/{id}` and then `suffix`.
pub fn sandbox_path(sandbox_id: &str, suffix: &str) -> (r: String)
    ensures
        r@ == "/sandbox/"@ + sandbox_id@ + suffix@,
{
    let mut p: Vec<char> = Vec::new();
    push_str(&mut p, "/sandbox/");
    push_str(&mut p, sandbox_id);
    push_str(&mut p, suffix);
    string_of(&p)
}

/// Whether a command run in a sandbox succeeded, and the error it reports
/// otherwise: `exit code N`.
pub fn exec_status(exit_code: i32) -> (r: (bool, Option<String>))
    ensures
        r.0 == (exit_code == 0),
        exit_code == 0 ==> r.1 is None,
        exit_code != 0 ==> (r.1 matches Some(e) && e@ == "exit code "@ + signed_decimal(exit_code as int)),
{
    if exit_code == 0 {
        (true, None)
    } else {
        let mut e: Vec<char> = Vec::new();
        push_str(&mut e, "exit code ");
        push_signed_decimal(&mut e, exit_code as i64);
        (false, Some(string_of(&e)))
    }
}

/// The commit message with each '"' written as '\"', for a double-quoted
/// shell argument.
pub open spec fn quoted_message(m: Seq<char>) -> Seq<char> {
    replace_all(m, seq!['"'], seq!['\\', '"'])
}

/// The commands that push a sandbox's work: stage everything, commit with
/// the message, push the branch.
pub fn sync_commands(branch: &str, message: &str) -> (r: Vec<String>)
    ensures
        r@.len() == 3,
        r@[0]@ == "git add ."@,
        r@[1]@ == "git commit -m \""@ + quoted_message(message@) + seq!['"'],
        r@[2]@ == "git push origin "@ + branch@,
{
    let m = chars_of(message);
    let q = vec!['"'];
    let esc = vec!['\\', '"'];
    assert(q@ =~= seq!['"']);
    assert(esc@ =~= seq!['\\', '"']);
    let sanitized = replace_all_exec(&m, &q, &esc);
    let mut commit: Vec<char> = Vec::new();
    push_str(&mut commit, "git commit -m \"");
    let ghost c0 = commit@;
    let mut i: usize = 0;
    while i < sanitized.len()
        invariant
            i <= sanitized@.len(),
            commit@ == c0 + sanitized@.subrange(0, i as int),
        decreases sanitized.len() - i,
    {
        commit.push(sanitized[i]);
        assert(sanitized@.subrange(0, i + 1) =~= sanitized@.subrange(0, i as int).push(sanitized@[i as int]));
        i = i + 1;
    }
    assert(sanitized@.subrange(0, sanitized@.len() as int) =~= sanitized@);
    commit.push('"');
    let mut cmds: Vec<String> = Vec::new();
    cmds.push("git add .".to_string());
    cmds.push(string_of(&commit));
    cmds.push(concat("git push origin ", branch));
    cmds
}

/// What a sync does next: run a command, stop with a failure message, or
/// finish.
#[derive(Debug, Clone, PartialEq)]
pub enum SyncAction {
    Run(String),
    Failed(String),
    Done,
}

/// The model of a sync's next action.
pub enum SyncActionV {
    Run(Seq<char>),
    Failed(Seq<char>),
    Done,
}

impl View for SyncAction {
    type V = SyncActionV;

    open spec fn view(&self) -> SyncActionV {
        match self {
            SyncAction::Run(c) => SyncActionV::Run(c@),
            SyncAction::Failed(m) => SyncActionV::Failed(m@),
            SyncAction::Done => SyncActionV::Done,
        }
    }
}

/// The first step of a sync over commands `cs`.
pub open spec fn sync_start_spec(cs: Seq<Seq<char>>) -> SyncActionV {
    if cs.len() > 0 {
        SyncActionV::Run(cs[0])
    } else {
        SyncActionV::Done
    }
}

/// The step of a sync over commands `cs` after command `ran` has run, with
/// `ok` telling whether it succeeded.
pub open spec fn sync_step_spec(cs: Seq<Seq<char>>, ran: int, ok: bool) -> SyncActionV {
    if !ok {
        SyncActionV::Failed("command failed: "@ + cs[ran])
    } else if ran + 1 < cs.len() {
        SyncActionV::Run(cs[ran + 1])
    } else {
        SyncActionV::Done
    }
}

/// The actions that a sync takes from command `ran` on, where `oks[i]` is
/// whether the `i`-th command succeeded: after each command the step's action,
/// until one that runs no further command.
pub open spec fn sync_run(cs: Seq<Seq<char>>, oks: Seq<bool>, ran: int) -> Seq<SyncActionV>
    decreases cs.len() - ran,
{
    if ran < 0 || ran >= cs.len() {
        Seq::empty()
    } else {
        let a = sync_step_spec(cs, ran, oks[ran]);
        if a is Run {
            seq![a] + sync_run(cs, oks, ran + 1)
        } else {
            seq![a]
        }
    }
}

/// Every action of a whole sync, the first one included.
pub open spec fn sync_trace(cs: Seq<Seq<char>>, oks: Seq<bool>) -> Seq<SyncActionV> {
    seq![sync_start_spec(cs)] + sync_run(cs, oks, 0)
}

proof fn lemma_sync_run_ok(cs: Seq<Seq<char>>, oks: Seq<bool>, ran: int)
    requires
        0 <= ran < cs.len(),
        oks.len() >= cs.len(),
        forall|i: int| ran <= i < cs.len() ==> oks[i],
    ensures
        sync_run(cs, oks, ran).len() == cs.len() - ran,
        forall|j: int|
            0 <= j < cs.len() - ran - 1 ==> #[trigger] sync_run(cs, oks, ran)[j] == SyncActionV::Run(cs[ran + j + 1]),
        sync_run(cs, oks, ran)[cs.len() - ran - 1] == SyncActionV::Done,
    decreases cs.len() - ran,
{
    let s = sync_run(cs, oks, ran);
    if ran + 1 < cs.len() {
        lemma_sync_run_ok(cs, oks, ran + 1);
        let t = sync_run(cs, oks, ran + 1);
        assert(s == seq![SyncActionV::Run(cs[ran + 1])] + t);
        assert forall|j: int| 0 <= j < cs.len() - ran - 1 implies s[j] == SyncActionV::Run(cs[ran + j + 1]) by {
            if j > 0 {
                assert(s[j] == t[j - 1]);
            }
        }
        assert(s[cs.len() - ran - 1] == t[cs.len() - ran - 2]);
    } else {
        assert(s == seq![SyncActionV::Done]);
    }
}

proof fn lemma_sync_run_fail(cs: Seq<Seq<char>>, oks: Seq<bool>, ran: int, k: int)
    requires
        0 <= ran <= k < cs.len(),
        oks.len() >= cs.len(),
        !oks[k],
        forall|i: int| ran <= i < k ==> oks[i],
    ensures
        sync_run(cs, oks, ran).len() == k - ran + 1,
        forall|j: int| 0 <= j < k - ran ==> #[trigger] sync_run(cs, oks, ran)[j] == SyncActionV::Run(cs[ran + j + 1]),
        sync_run(cs, oks, ran)[k - ran] == SyncActionV::Failed("command failed: "@ + cs[k]),
    decreases cs.len() - ran,
{
    let s = sync_run(cs, oks, ran);
    if ran < k {
        lemma_sync_run_fail(cs, oks, ran + 1, k);
        let t = sync_run(cs, oks, ran + 1);
        assert(oks[ran]);
        assert(s == seq![SyncActionV::Run(cs[ran + 1])] + t);
        assert forall|j: int| 0 <= j < k - ran implies s[j] == SyncActionV::Run(cs[ran + j + 1]) by {
            if j > 0 {
                assert(s[j] == t[j - 1]);
            }
        }
        assert(s[k - ran] == t[k - ran - 1]);
    } else {
        assert(s == seq![SyncActionV::Failed("command failed: "@ + cs[ran])]);
    }
}

/// The law of a whole sync: the commands run in order, one after another;
/// where all succeed, the sync finishes after the last; otherwise it runs
/// no command after the first that fails, and stops with
/// `command failed: <that command>`.
pub proof fn lemma_sync_trace(cs: Seq<Seq<char>>, oks: Seq<bool>)
    requires
        cs.len() > 0,
        oks.len() >= cs.len(),
    ensures
        (forall|i: int| 0 <= i < cs.len() ==> oks[i]) ==> {
            &&& sync_trace(cs, oks).len() == cs.len() + 1
            &&& forall|j: int| 0 <= j < cs.len() ==> sync_trace(cs, oks)[j] == SyncActionV::Run(cs[j])
            &&& sync_trace(cs, oks)[cs.len() as int] == SyncActionV::Done
        },
        forall|k: int|
            0 <= k < cs.len() && !oks[k] && (forall|i: int| 0 <= i < k ==> oks[i]) ==> {
                &&& sync_trace(cs, oks).len() == k + 2
                &&& forall|j: int| 0 <= j <= k ==> sync_trace(cs, oks)[j] == SyncActionV::Run(cs[j])
                &&& sync_trace(cs, oks)[k + 1] == SyncActionV::Failed("command failed: "@ + cs[k])
            },
{
    let t = sync_trace(cs, oks);
    let s = sync_run(cs, oks, 0);
    assert(t == seq![SyncActionV::Run(cs[0])] + s);
    if forall|i: int| 0 <= i < cs.len() ==> oks[i] {
        lemma_sync_run_ok(cs, oks, 0);
        assert forall|j: int| 0 <= j < cs.len() implies t[j] == SyncActionV::Run(cs[j]) by {
            if j > 0 {
                assert(t[j] == s[j - 1]);
            }
        }
        assert(t[cs.len() as int] == s[cs.len() - 1]);
    }
    assert forall|k: int|
        0 <= k < cs.len() && !oks[k] && (forall|i: int| 0 <= i < k ==> oks[i]) implies {
        &&& t.len() == k + 2
        &&& forall|j: int| 0 <= j <= k ==> t[j] == SyncActionV::Run(cs[j])
        &&& t[k + 1] == SyncActionV::Failed("command failed: "@ + cs[k])
    } by {
        lemma_sync_run_fail(cs, oks, 0, k);
        assert forall|j: int| 0 <= j <= k implies t[j] == SyncActionV::Run(cs[j]) by {
            if j > 0 {
                assert(t[j] == s[j - 1]);
            }
        }
        assert(t[k + 1] == s[k]);
    }
}

/// The first step of a sync: run the first command, or finish where there is
/// none.
pub fn sync_start(commands: &Vec<String>) -> (r: SyncAction)
    ensures
        r@ == sync_start_spec(commands@.map_values(|c: String| c@)),
{
    if commands.len() > 0 {
        SyncAction::Run(commands[0].clone())
    } else {
        SyncAction::Done
    }
}

/// The step of a sync after command `ran` has run: where it failed, the sync
/// stops with `command failed: <command>`; otherwise it runs the next command,
/// or finishes after the last.
pub fn sync_step(commands: &Vec<String>, ran: usize, ok: bool) -> (r: SyncAction)
    requires
        ran < commands@.len(),
    ensures
        r@ == sync_step_spec(commands@.map_values(|c: String| c@), ran as int, ok),
{
    if !ok {
        SyncAction::Failed(concat("command failed: ", commands[ran].as_str()))
    } else if ran < commands.len() - 1 {
        SyncAction::Run(commands[ran + 1].clone())
    } else {
        SyncAction::Done
    }
}

} // verus!
