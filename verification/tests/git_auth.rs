use cargo_core::git_auth::{try_next_username, username_candidates, Allowed, AuthState, CredAnswer, Refusal};

fn allowed(username: bool, ssh_key: bool, user_pass_plaintext: bool, default: bool) -> Allowed {
    Allowed { username, ssh_key, user_pass_plaintext, default }
}

#[test]
fn first_session_tries_each_method_once() {
    let mut st = AuthState::new();
    let all = allowed(false, true, true, true);
    assert_eq!(st.first_request(Some("alice"), all), CredAnswer::SshKeyFromAgent("alice".to_string()));
    assert_eq!(st.first_request(Some("alice"), all), CredAnswer::CredentialHelper);
    st.record_helper(true);
    assert_eq!(st.first_request(Some("alice"), all), CredAnswer::Default);
    assert_eq!(
        st.first_request(Some("alice"), allowed(false, true, true, false)),
        CredAnswer::Refuse(Refusal::NoAuthenticationAvailable)
    );
    assert_eq!(
        st.failure(false).unwrap(),
        "failed to authenticate when downloading repository\n\
         attempted ssh-agent authentication, but none of the usernames `alice` succeeded\n\
         attempted to find username/password via git's `credential.helper` support, but failed"
    );
    assert_eq!(st.failure(true), None);
}

#[test]
fn usernames_are_tried_in_sessions_of_their_own() {
    let mut st = AuthState::new();
    assert_eq!(st.first_request(None, allowed(true, true, false, false)), CredAnswer::Refuse(Refusal::TryUsernamesLater));
    assert!(st.ssh_username_requested);
    let mut candidates = username_candidates(Some("me".to_string()), None);
    assert_eq!(candidates, vec!["me".to_string(), "git".to_string()]);
    candidates.reverse();
    let mut tried = Vec::new();
    while let Some(name) = candidates.pop() {
        let mut attempts = 0;
        assert_eq!(st.retry_request(&name, &mut attempts, allowed(true, false, false, false)), CredAnswer::Username(name.clone()));
        assert_eq!(st.retry_request(&name, &mut attempts, allowed(false, true, false, false)), CredAnswer::SshKeyFromAgent(name.clone()));
        assert_eq!(
            st.retry_request(&name, &mut attempts, allowed(false, true, false, false)),
            CredAnswer::Refuse(Refusal::NoAuthenticationAvailable)
        );
        tried.push(name);
        if !try_next_username(attempts) {
            break;
        }
    }
    assert_eq!(tried, vec!["me".to_string(), "git".to_string()]);
    assert_eq!(
        st.failure(false).unwrap(),
        "failed to authenticate when downloading repository\n\
         attempted ssh-agent authentication, but none of the usernames `me`, `git` succeeded"
    );
}

#[test]
fn no_request_keeps_the_fetch_result() {
    let st = AuthState::new();
    assert_eq!(st.failure(false), None);
    let mut st = AuthState::new();
    st.first_request(None, allowed(false, false, true, false));
    st.record_helper(false);
    assert_eq!(
        st.failure(false).unwrap(),
        "failed to authenticate when downloading repository\n\
         attempted to find username/password via `credential.helper`, but maybe the found credentials were incorrect"
    );
}

#[test]
fn candidate_order() {
    assert_eq!(
        username_candidates(Some("me".to_string()), Some("helper".to_string())),
        vec!["helper".to_string(), "me".to_string(), "git".to_string()]
    );
    assert_eq!(username_candidates(None, None), vec!["git".to_string()]);
}
