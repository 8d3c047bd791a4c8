use madome_auth::authcode::Authcode;
use madome_auth::authcode_repository::InMemoryAuthcodeRepository;
use madome_auth::check_authcode;
use madome_auth::command::GetUserInfo;
use madome_auth::create_authcode;
use madome_auth::error::{Error, UseCaseError};
use madome_auth::user::UserInfo;

fn now_ts() -> i64 {
    chrono::Utc::now().timestamp()
}

#[test]
fn sixth_add_for_one_email_is_refused() {
    let now = now_ts();
    let mut store = InMemoryAuthcodeRepository::new();
    let email = "cap@example.com";
    for i in 0..5 {
        let code = format!("code-{}", i);
        assert!(store.add_at(Authcode::new(email.to_string(), code), now));
    }
    assert!(!store.add_at(Authcode::new(email.to_string(), "code-5".to_string()), now));
}

#[test]
fn cap_counts_per_email_not_globally() {
    let now = now_ts();
    let mut store = InMemoryAuthcodeRepository::new();
    for i in 0..5 {
        let code = format!("code-{}", i);
        assert!(store.add_at(Authcode::new("a@example.com".to_string(), code), now));
    }
    assert!(store.add_at(Authcode::new("b@example.com".to_string(), "c".to_string()), now));
}

#[test]
fn expired_oldest_is_evicted_to_make_room() {
    let now = now_ts();
    let mut store = InMemoryAuthcodeRepository::new();
    let email = "evict@example.com";
    // the first entry is far past its age by the time the sixth arrives
    assert!(store.add_at(Authcode::new(email.to_string(), "old".to_string()), now - 1000));
    for i in 0..4 {
        let code = format!("code-{}", i);
        assert!(store.add_at(Authcode::new(email.to_string(), code), now));
    }
    assert!(store.add_at(Authcode::new(email.to_string(), "fresh".to_string()), now));
    // the evicted oldest is gone
    assert!(store.pop_at(email, "old", now).is_none());
    assert!(store.pop_at(email, "fresh", now).is_some());
}

#[test]
fn second_pop_of_same_code_is_absent() {
    let now = now_ts();
    let mut store = InMemoryAuthcodeRepository::new();
    let email = "once@example.com";
    store.add_at(Authcode::new(email.to_string(), "onlyonce".to_string()), now);
    let first = store.pop_at(email, "onlyonce", now);
    assert!(first.is_some());
    assert_eq!(first.unwrap().user_email, email);
    let second = store.pop_at(email, "onlyonce", now);
    assert!(second.is_none());
}

#[test]
fn expired_code_pops_as_absent_and_stays_gone() {
    let now = now_ts();
    let mut store = InMemoryAuthcodeRepository::new();
    let email = "late@example.com";
    store.add_at(Authcode::new(email.to_string(), "slow".to_string()), now - 1000);
    assert!(store.pop_at(email, "slow", now).is_none());
    // the matched-but-expired entry was removed, not left behind
    assert!(store.pop_at(email, "slow", now - 1000).is_none());
}

#[test]
fn check_authcode_consumes_once() {
    let now = now_ts();
    let mut store = InMemoryAuthcodeRepository::new();
    store.add_at(Authcode::new("test@example.com".to_string(), "abc123".to_string()), now);

    let r = check_authcode::execute(
        check_authcode::Payload { code: "abc123".to_string() },
        &mut store,
        now,
    )
    .unwrap();
    assert_eq!(r.user_email, "test@example.com");

    let r = check_authcode::execute(
        check_authcode::Payload { code: "abc123".to_string() },
        &mut store,
        now,
    );
    assert!(matches!(
        r,
        Err(Error::UseCase(UseCaseError::CheckAuthcode(
            check_authcode::Error::InvalidAuthcode
        )))
    ));
}

#[test]
fn create_authcode_issues_a_consumable_code() {
    let now = now_ts();
    let mut store = InMemoryAuthcodeRepository::new();
    let mut command = GetUserInfo::new();
    command.add_user(UserInfo {
        id: "33333333-3333-3333-3333-333333333333".to_string(),
        email: "issue@example.com".to_string(),
        role: 0,
    });

    let r = create_authcode::execute(
        create_authcode::Payload { user_email: "issue@example.com".to_string(), ses_flag: false },
        &mut store,
        &command,
        now,
    )
    .unwrap();
    assert_eq!(r.user_email, "issue@example.com");
    assert_eq!(r.code.len(), 12);

    let popped = store.pop_at("issue@example.com", &r.code, now).unwrap();
    assert_eq!(popped.code, r.code);
}

#[test]
fn create_authcode_unknown_user_fails() {
    let now = now_ts();
    let mut store = InMemoryAuthcodeRepository::new();
    let command = GetUserInfo::new();
    let r = create_authcode::execute(
        create_authcode::Payload { user_email: "ghost@example.com".to_string(), ses_flag: true },
        &mut store,
        &command,
        now,
    );
    assert!(matches!(
        r,
        Err(Error::UseCase(UseCaseError::CreateAuthcode(
            create_authcode::Error::NotFoundUser
        )))
    ));
}

#[test]
fn create_authcode_rate_limit_on_sixth() {
    let now = now_ts();
    let mut store = InMemoryAuthcodeRepository::new();
    let mut command = GetUserInfo::new();
    command.add_user(UserInfo {
        id: "44444444-4444-4444-4444-444444444444".to_string(),
        email: "burst@example.com".to_string(),
        role: 0,
    });

    for _ in 0..5 {
        create_authcode::execute(
            create_authcode::Payload {
                user_email: "burst@example.com".to_string(),
                ses_flag: false,
            },
            &mut store,
            &command,
            now,
        )
        .unwrap();
    }
    let r = create_authcode::execute(
        create_authcode::Payload { user_email: "burst@example.com".to_string(), ses_flag: false },
        &mut store,
        &command,
        now,
    );
    assert!(matches!(
        r,
        Err(Error::UseCase(UseCaseError::CreateAuthcode(
            create_authcode::Error::TooManyCreatedAuthcode
        )))
    ));
}
