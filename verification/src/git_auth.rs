//! How credential requests of the git library are answered while fetching
//! a repository: the ssh agent once for the username of the URL, git's
//! credential helper once, the default credentials; and when the server
//! asks for a username, sessions of their own for a few candidate
//! usernames. The sessions themselves run outside; these are the
//! decisions between their requests, and the message when all failed.
use vstd::prelude::*;
use crate::text::{chars_of, push_all, push_str, string_of, strs};

verus! {

/// What a credential request allows.
#[derive(Clone, Copy, Debug)]
pub struct Allowed {
    pub username: bool,
    pub ssh_key: bool,
    pub user_pass_plaintext: bool,
    pub default: bool,
}

/// Why a request is refused.
#[derive(Clone, Copy, Debug, PartialEq, Eq, Structural)]
pub enum Refusal {
    /// A username was asked for: the usernames are tried in sessions of
    /// their own afterwards.
    TryUsernamesLater,
    /// Nothing allowed is left to try.
    NoAuthenticationAvailable,
}

/// The answer to a credential request.
#[derive(Debug, PartialEq, Eq)]
pub enum CredAnswer {
    /// Refuse the request.
    Refuse(Refusal),
    /// Give this username.
    Username(String),
    /// Ask the ssh agent for a key of this user.
    SshKeyFromAgent(String),
    /// Ask git's credential helper for a username and password.
    CredentialHelper,
    /// Give the default credentials.
    Default,
}

/// What the first session has done so far.
#[derive(Debug)]
pub struct AuthState {
    /// The server asked for a username.
    pub ssh_username_requested: bool,
    /// Whether the credential helper failed, once it was asked.
    pub cred_helper_bad: Option<bool>,
    /// The usernames the ssh agent was asked for, in order.
    pub ssh_agent_attempts: Vec<String>,
    /// Whether any request came.
    pub any_attempts: bool,
    /// Whether the ssh agent was asked in the first session.
    pub tried_sshkey: bool,
}

impl AuthState {
    /// The state before any request.
    pub fn new() -> (r: AuthState)
        ensures
            !r.ssh_username_requested,
            r.cred_helper_bad is None,
            r.ssh_agent_attempts@.len() == 0,
            !r.any_attempts,
            !r.tried_sshkey,
    {
        AuthState {
            ssh_username_requested: false,
            cred_helper_bad: None,
            ssh_agent_attempts: Vec::new(),
            any_attempts: false,
            tried_sshkey: false,
        }
    }

    /// Answers a request of the first session, for the username of the URL
    /// (if it names one): a request for a username is refused, to try
    /// usernames later; the ssh agent is asked once, for the URL's
    /// username; the credential helper once (its outcome is recorded with
    /// `record_helper`); then the default credentials, if allowed.
    pub fn first_request(&mut self, username: Option<&str>, allowed: Allowed) -> (r: CredAnswer)
        requires
            !allowed.username && allowed.ssh_key && !old(self).tried_sshkey ==> username is Some,
        ensures
            final(self).any_attempts,
            final(self).cred_helper_bad == old(self).cred_helper_bad,
            old(self).tried_sshkey ==> !(r is SshKeyFromAgent),
            old(self).cred_helper_bad is Some ==> !(r is CredentialHelper),
            allowed.username ==> r == CredAnswer::Refuse(Refusal::TryUsernamesLater) && final(self).ssh_username_requested
                && final(self).tried_sshkey == old(self).tried_sshkey && strs(final(self).ssh_agent_attempts@) == strs(
                old(self).ssh_agent_attempts@,
            ),
            !allowed.username && allowed.ssh_key && !old(self).tried_sshkey ==> (r matches CredAnswer::SshKeyFromAgent(u)
                && u@ == username->0@) && final(self).tried_sshkey && final(self).ssh_username_requested
                == old(self).ssh_username_requested && strs(final(self).ssh_agent_attempts@) == strs(
                old(self).ssh_agent_attempts@,
            ).push(username->0@),
            !allowed.username && !(allowed.ssh_key && !old(self).tried_sshkey) ==> {
                &&& final(self).tried_sshkey == old(self).tried_sshkey
                &&& final(self).ssh_username_requested == old(self).ssh_username_requested
                &&& strs(final(self).ssh_agent_attempts@) == strs(old(self).ssh_agent_attempts@)
                &&& r == if allowed.user_pass_plaintext && old(self).cred_helper_bad is None {
                    CredAnswer::CredentialHelper
                } else if allowed.default {
                    CredAnswer::Default
                } else {
                    CredAnswer::Refuse(Refusal::NoAuthenticationAvailable)
                }
            },
    {
        self.any_attempts = true;
        if allowed.username {
            self.ssh_username_requested = true;
            return CredAnswer::Refuse(Refusal::TryUsernamesLater);
        }
        if allowed.ssh_key && !self.tried_sshkey {
            self.tried_sshkey = true;
            let name = username.unwrap().to_string();
            let ghost before = strs(self.ssh_agent_attempts@);
            self.ssh_agent_attempts.push(name.clone());
            assert(strs(self.ssh_agent_attempts@) =~= before.push(name@));
            return CredAnswer::SshKeyFromAgent(name);
        }
        if allowed.user_pass_plaintext && self.cred_helper_bad.is_none() {
            return CredAnswer::CredentialHelper;
        }
        if allowed.default {
            return CredAnswer::Default;
        }
        CredAnswer::Refuse(Refusal::NoAuthenticationAvailable)
    }

    /// Records whether the credential helper, once asked, failed.
    pub fn record_helper(&mut self, failed: bool)
        ensures
            final(self).cred_helper_bad == Some(failed),
            final(self).any_attempts == old(self).any_attempts,
            final(self).tried_sshkey == old(self).tried_sshkey,
            final(self).ssh_username_requested == old(self).ssh_username_requested,
            strs(final(self).ssh_agent_attempts@) == strs(old(self).ssh_agent_attempts@),
    {
        self.cred_helper_bad = Some(failed);
    }

    /// Answers a request of the session for the candidate username
    /// `name`, of which `attempts` requests for a key came before: a
    /// request for a username gets `name`; the first request for a key
    /// asks the ssh agent for `name`; anything else is refused.
    pub fn retry_request(&mut self, name: &str, attempts: &mut u32, allowed: Allowed) -> (r: CredAnswer)
        requires
            *old(attempts) < u32::MAX,
        ensures
            final(self).any_attempts == old(self).any_attempts,
            final(self).cred_helper_bad == old(self).cred_helper_bad,
            final(self).tried_sshkey == old(self).tried_sshkey,
            final(self).ssh_username_requested == old(self).ssh_username_requested,
            *old(attempts) > 0 ==> !(r is SshKeyFromAgent),
            allowed.username ==> (r matches CredAnswer::Username(u) && u@ == name@) && *final(attempts) == *old(attempts)
                && strs(final(self).ssh_agent_attempts@) == strs(old(self).ssh_agent_attempts@),
            !allowed.username && allowed.ssh_key ==> *final(attempts) == *old(attempts) + 1,
            !allowed.username && allowed.ssh_key && *old(attempts) == 0 ==> (r matches CredAnswer::SshKeyFromAgent(u)
                && u@ == name@) && strs(final(self).ssh_agent_attempts@) == strs(old(self).ssh_agent_attempts@).push(
                name@,
            ),
            !allowed.username && (!allowed.ssh_key || *old(attempts) != 0) ==> r == CredAnswer::Refuse(
                Refusal::NoAuthenticationAvailable,
            ) && strs(final(self).ssh_agent_attempts@) == strs(old(self).ssh_agent_attempts@),
            !allowed.username && !allowed.ssh_key ==> *final(attempts) == *old(attempts),
    {
        if allowed.username {
            return CredAnswer::Username(name.to_string());
        }
        if allowed.ssh_key {
            *attempts = *attempts + 1;
            if *attempts == 1 {
                let s = name.to_string();
                let ghost before = strs(self.ssh_agent_attempts@);
                self.ssh_agent_attempts.push(s.clone());
                assert(strs(self.ssh_agent_attempts@) =~= before.push(s@));
                return CredAnswer::SshKeyFromAgent(s);
            }
        }
        CredAnswer::Refuse(Refusal::NoAuthenticationAvailable)
    }
}

/// Whether the next candidate username is tried after a session for one:
/// only when the session asked for a key twice, that is, the only thing
/// that failed was that username.
pub fn try_next_username(attempts: u32) -> (r: bool)
    ensures
        r == (attempts == 2),
{
    attempts == 2
}

/// The candidate usernames, in the order they are tried: the credential
/// helper's username for the URL, the account's username, and `git`.
pub open spec fn candidates_spec(account: Option<Seq<char>>, helper: Option<Seq<char>>) -> Seq<Seq<char>> {
    (match helper {
        Some(h) => seq![h],
        None => Seq::empty(),
    }) + (match account {
        Some(a) => seq![a],
        None => Seq::empty(),
    }) + seq!["git"@]
}

/// The text, if there is one, as a list.
pub open spec fn present(o: Option<String>) -> Seq<Seq<char>> {
    match o {
        Some(s) => seq![s@],
        None => Seq::empty(),
    }
}

/// The candidate usernames in the order they are tried (see
/// `candidates_spec`).
pub fn username_candidates(account: Option<String>, helper: Option<String>) -> (r: Vec<String>)
    ensures
        strs(r@) == candidates_spec(
            match account {
                Some(a) => Some(a@),
                None => None,
            },
            match helper {
                Some(h) => Some(h@),
                None => None,
            },
        ),
{
    let mut out: Vec<String> = Vec::new();
    let ghost hv = present(helper);
    let ghost av = present(account);
    match helper {
        Some(h) => {
            out.push(h);
        },
        None => {},
    }
    assert(strs(out@) =~= hv);
    match account {
        Some(a) => {
            out.push(a);
        },
        None => {},
    }
    assert(strs(out@) =~= hv + av);
    out.push("git".to_string());
    assert(strs(out@) =~= hv + av + seq!["git"@]);
    out
}

/// The names quoted with backquotes and joined by `, `.
pub open spec fn quoted_list(s: Seq<Seq<char>>) -> Seq<char>
    decreases s.len(),
{
    if s.len() == 0 {
        Seq::empty()
    } else if s.len() == 1 {
        "`"@ + s[0] + "`"@
    } else {
        quoted_list(s.drop_last()) + ", `"@ + s.last() + "`"@
    }
}

/// The message of a failed authentication, after all was tried: the
/// usernames the ssh agent was asked for, and what became of the
/// credential helper.
pub open spec fn failure_message(attempts: Seq<Seq<char>>, cred_helper_bad: Option<bool>) -> Seq<char> {
    "failed to authenticate when downloading repository"@ + (if attempts.len() > 0 {
        "\nattempted ssh-agent authentication, but none of the usernames "@ + quoted_list(attempts) + " succeeded"@
    } else {
        Seq::empty()
    }) + match cred_helper_bad {
        Some(true) => "\nattempted to find username/password via git's `credential.helper` support, but failed"@,
        Some(false) => "\nattempted to find username/password via `credential.helper`, but maybe the found credentials were incorrect"@,
        None => Seq::empty(),
    }
}

/// The names quoted and joined (see `quoted_list`).
fn quote_all(s: &Vec<String>) -> (r: Vec<char>)
    ensures
        r@ == quoted_list(strs(s@)),
{
    let mut out: Vec<char> = Vec::new();
    let mut i: usize = 0;
    while i < s.len()
        invariant
            i <= s@.len(),
            out@ == quoted_list(strs(s@).take(i as int)),
        decreases s.len() - i,
    {
        let ghost before = out@;
        let ghost t = strs(s@).take(i + 1);
        assert(t.drop_last() =~= strs(s@).take(i as int));
        assert(t.last() == s@[i as int]@);
        if i > 0 {
            push_str(&mut out, ", `");
        } else {
            push_str(&mut out, "`");
        }
        let c = chars_of(s[i].as_str());
        push_all(&mut out, &c);
        push_str(&mut out, "`");
        proof {
            if i == 0 {
                assert(out@ =~= "`"@ + t[0] + "`"@);
            } else {
                assert(out@ =~= before + ", `"@ + t.last() + "`"@);
            }
        }
        i = i + 1;
    }
    assert(strs(s@).take(s@.len() as int) =~= strs(s@));
    out
}

impl AuthState {
    /// What becomes of the fetch once the sessions are over: when it
    /// succeeded, or no credential was ever asked for, its own result
    /// stands (`None`); otherwise it fails with the message of
    /// `failure_message`.
    pub fn failure(&self, succeeded: bool) -> (r: Option<String>)
        ensures
            succeeded || !self.any_attempts ==> r is None,
            !succeeded && self.any_attempts ==> (r matches Some(m) && m@ == failure_message(
                strs(self.ssh_agent_attempts@),
                self.cred_helper_bad,
            )),
    {
        if succeeded || !self.any_attempts {
            return None;
        }
        let mut msg: Vec<char> = Vec::new();
        push_str(&mut msg, "failed to authenticate when downloading repository");
        let ghost m0 = msg@;
        if self.ssh_agent_attempts.len() > 0 {
            push_str(&mut msg, "\nattempted ssh-agent authentication, but none of the usernames ");
            let names = quote_all(&self.ssh_agent_attempts);
            push_all(&mut msg, &names);
            push_str(&mut msg, " succeeded");
        }
        let ghost m1 = msg@;
        match self.cred_helper_bad {
            Some(true) => {
                push_str(
                    &mut msg,
                    "\nattempted to find username/password via git's `credential.helper` support, but failed",
                );
            },
            Some(false) => {
                push_str(
                    &mut msg,
                    "\nattempted to find username/password via `credential.helper`, but maybe the found credentials were incorrect",
                );
            },
            None => {},
        }
        proof {
            let a = strs(self.ssh_agent_attempts@);
            assert(m1 =~= m0 + (if a.len() > 0 {
                "\nattempted ssh-agent authentication, but none of the usernames "@ + quoted_list(a) + " succeeded"@
            } else {
                Seq::empty()
            }));
            assert(msg@ =~= failure_message(a, self.cred_helper_bad));
        }
        Some(string_of(&msg))
    }
}

} // verus!
