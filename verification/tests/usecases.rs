use madome_auth::check_access_token;
use madome_auth::check_and_refresh_token_pair;
use madome_auth::check_refresh_token;
use madome_auth::check_token_pair;
use madome_auth::command::GetUserInfo;
use madome_auth::create_token_pair;
use madome_auth::delete_token_pair;
use madome_auth::error::{Error, UseCaseError};
use madome_auth::model::TokenPair;
use madome_auth::refresh_token_pair;
use madome_auth::secret_key_repository::InMemorySecretKeyRepository;
use madome_auth::token::{AccessToken, RefreshToken, Token, ACCESS_TOKEN_EXP, REFRESH_TOKEN_EXP};
use madome_auth::user::UserInfo;

fn now_ts() -> i64 {
    chrono::Utc::now().timestamp()
}

fn new_user_id() -> String {
    uuid::Uuid::new_v4().to_string()
}

#[test]
fn check_access_token_success() {
    let now = now_ts();
    let mut repository = InMemorySecretKeyRepository::new();
    let command = GetUserInfo::new();
    let secret_key = "secret1234".to_string();
    let user_id = new_user_id();
    let token = Token::new(user_id.clone());
    repository.add_at(&token.id, &secret_key, now);

    let (serialized, _) = token.serialize(&secret_key).expect("token serialize");

    let payload = check_access_token::Payload {
        access_token: serialized,
        minimum_role: None,
        validate_exp: true,
    };
    let r = check_access_token::execute(payload, &repository, &command, now).unwrap();

    assert_eq!(r.token_id, token.id);
    assert_eq!(r.user_id, user_id);
}

#[test]
fn success_with_permission_check() {
    let now = now_ts();
    let mut repository = InMemorySecretKeyRepository::new();
    let mut command = GetUserInfo::new();
    let secret_key = "secret1234".to_string();
    let user_id = new_user_id();
    let token = Token::new(user_id.clone());
    repository.add_at(&token.id, &secret_key, now);
    command.add_user(UserInfo { id: user_id.clone(), email: "".to_string(), role: 1 });

    let (serialized, _) = token.serialize(&secret_key).expect("token serialize");

    let payload = check_access_token::Payload {
        access_token: serialized,
        minimum_role: Some(0),
        validate_exp: true,
    };
    let r = check_access_token::execute(payload, &repository, &command, now).unwrap();

    assert_eq!(r.token_id, token.id);
    assert_eq!(r.user_id, user_id);
}

#[test]
fn error_permission_denied() {
    let now = now_ts();
    let mut repository = InMemorySecretKeyRepository::new();
    let mut command = GetUserInfo::new();
    let secret_key = "secret1234".to_string();
    let user_id = new_user_id();
    let token = Token::new(user_id.clone());
    repository.add_at(&token.id, &secret_key, now);
    command.add_user(UserInfo { id: user_id.clone(), email: "".to_string(), role: 0 });

    let (serialized, _) = token.serialize(&secret_key).expect("token serialize");

    let payload = check_access_token::Payload {
        access_token: serialized,
        minimum_role: Some(1),
        validate_exp: true,
    };
    let r = check_access_token::execute(payload, &repository, &command, now)
        .expect_err("expected error, but returns ok");

    assert!(matches!(
        r,
        Error::UseCase(UseCaseError::CheckAccessToken(
            check_access_token::Error::PermissionDenied
        ))
    ));
}

#[test]
fn error_unauthorized_by_use_refresh_token_instead_of_access_token() {
    let now = now_ts();
    let mut repository = InMemorySecretKeyRepository::new();
    let mut command = GetUserInfo::new();
    let secret_key = "secret1234".to_string();
    let user_id = new_user_id();
    let token = Token::new(user_id.clone());
    repository.add_at(&token.id, &secret_key, now);
    command.add_user(UserInfo { id: user_id.clone(), email: "".to_string(), role: 0 });

    let (_, refresh_token) = token.serialize(&secret_key).expect("token serialize");

    let payload = check_access_token::Payload {
        access_token: refresh_token,
        minimum_role: None,
        validate_exp: true,
    };
    let r = check_access_token::execute(payload, &repository, &command, now)
        .expect_err("expected error, but returns ok");

    assert!(matches!(
        r,
        Error::UseCase(UseCaseError::CheckAccessToken(
            check_access_token::Error::UnauthorizedAccessToken
        ))
    ));
}

#[test]
fn success_without_refresh() {
    let now = now_ts();
    let mut repository = InMemorySecretKeyRepository::new();
    let command = GetUserInfo::new();
    let secret_key = "secret1234".to_string();
    let user_id = new_user_id();
    let token = Token::new(user_id.clone());
    repository.add_at(&token.id, &secret_key, now);

    let (access_token, refresh_token) = token.serialize(&secret_key).expect("token serialize");

    let payload = check_and_refresh_token_pair::Payload {
        access_token,
        refresh_token,
        minimum_role: None,
    };
    let r =
        check_and_refresh_token_pair::execute(payload, &mut repository, &command, now).unwrap();

    assert!(r.access_token.is_none());
    assert!(r.refresh_token.is_none());
    assert_eq!(r.token_id, token.id);
    assert_eq!(r.user_id, user_id);
}

#[test]
fn success_with_refresh() {
    let now = now_ts();
    let mut repository = InMemorySecretKeyRepository::new();
    let command = GetUserInfo::new();
    let secret_key = "secret1234".to_string();
    let user_id = new_user_id();
    let token = Token::new(user_id.clone());

    let access_token = AccessToken {
        sub: "madome access token".to_string(),
        iss: "madome.app".to_string(),
        iat: now,
        exp: now - ACCESS_TOKEN_EXP - 30,
        id: token.id.clone(),
        user_id: user_id.clone(),
        _a: true,
    };
    let refresh_token = RefreshToken {
        sub: "madome refresh token".to_string(),
        iss: "madome.app".to_string(),
        iat: now,
        exp: now + REFRESH_TOKEN_EXP,
        id: token.id.clone(),
        user_id: user_id.clone(),
        _r: true,
    };
    repository.add_at(&token.id, &secret_key, now);

    let access_token = access_token.serialize(&secret_key);
    let refresh_token = refresh_token.serialize(&secret_key);

    let payload = check_and_refresh_token_pair::Payload {
        access_token,
        refresh_token,
        minimum_role: None,
    };
    let r = check_and_refresh_token_pair::execute(payload, &mut repository, &command, now)
        .expect("expected ok, but returns error");

    let access_token = r.access_token.unwrap();
    let refresh_token = r.refresh_token.unwrap();

    let p = AccessToken::deserialize_payload(&access_token)
        .expect("deserialize payload from access token");
    let secret_key = repository.get_at(&p.id, now).unwrap();
    AccessToken::deserialize_at(&access_token, &secret_key.0, true, now)
        .expect("deserialize access token");
    RefreshToken::deserialize_at(&refresh_token, &secret_key.0, now)
        .expect("deserialize refresh token");
}

#[test]
fn error_permission_denied_without_refresh() {
    let now = now_ts();
    let mut repository = InMemorySecretKeyRepository::new();
    let mut command = GetUserInfo::new();
    let secret_key = "secret1234".to_string();
    let user_id = new_user_id();
    let token = Token::new(user_id.clone());
    repository.add_at(&token.id, &secret_key, now);
    command.add_user(UserInfo { id: user_id.clone(), email: "".to_string(), role: 0 });

    let (access_token, refresh_token) = token.serialize(&secret_key).expect("token serialize");

    let payload = check_and_refresh_token_pair::Payload {
        access_token,
        refresh_token,
        minimum_role: Some(1),
    };
    let r = check_and_refresh_token_pair::execute(payload, &mut repository, &command, now)
        .expect_err("expected error, but returns ok");

    assert!(matches!(
        r,
        Error::UseCase(UseCaseError::CheckAccessToken(
            check_access_token::Error::PermissionDenied
        ))
    ));
}

#[test]
fn error_permission_denied_with_refresh() {
    let now = now_ts();
    let mut repository = InMemorySecretKeyRepository::new();
    let mut command = GetUserInfo::new();
    let secret_key = "secret1234".to_string();
    let user_id = new_user_id();
    let token = Token::new(user_id.clone());

    let access_token = AccessToken {
        sub: "madome access token".to_string(),
        iss: "madome.app".to_string(),
        iat: now,
        exp: now - ACCESS_TOKEN_EXP - 30,
        id: token.id.clone(),
        user_id: user_id.clone(),
        _a: true,
    };
    let refresh_token = RefreshToken {
        sub: "madome refresh token".to_string(),
        iss: "madome.app".to_string(),
        iat: now,
        exp: now + REFRESH_TOKEN_EXP,
        id: token.id.clone(),
        user_id: user_id.clone(),
        _r: true,
    };
    repository.add_at(&token.id, &secret_key, now);
    command.add_user(UserInfo { id: user_id.clone(), email: "".to_string(), role: 0 });

    let access_token = access_token.serialize(&secret_key);
    let refresh_token = refresh_token.serialize(&secret_key);

    let payload = check_and_refresh_token_pair::Payload {
        access_token,
        refresh_token,
        minimum_role: Some(1),
    };
    let r = check_and_refresh_token_pair::execute(payload, &mut repository, &command, now)
        .expect_err("expected error, but returns ok");

    match r {
        Error::UseCase(UseCaseError::CheckAndRefreshTokenPair(
            check_and_refresh_token_pair::Error::PermissionDenied(TokenPair {
                access_token,
                refresh_token,
            }),
        )) => {
            let p = AccessToken::deserialize_payload(&access_token)
                .expect("deserialize payload from access token");
            let secret_key = repository.get_at(&p.id, now).unwrap();
            AccessToken::deserialize_at(&access_token, &secret_key.0, true, now)
                .expect("deserialize access token");
            RefreshToken::deserialize_at(&refresh_token, &secret_key.0, now)
                .expect("deserialize refresh token");
        }
        _ => panic!(""),
    }
}

#[test]
fn check_refresh_token_success() {
    let now = now_ts();
    let mut repository = InMemorySecretKeyRepository::new();
    let secret_key = "secret54231".to_string();
    let user_id = new_user_id();
    let token = Token::new(user_id.clone());
    repository.add_at(&token.id, &secret_key, now);

    let (_, serialized) = token.serialize(&secret_key).expect("token serialize");

    let payload = check_refresh_token::Payload { refresh_token: serialized };
    let r = check_refresh_token::execute(payload, &repository, now).unwrap();

    assert_eq!(r.token_id, token.id);
    assert_eq!(user_id, token.user_id);
}

#[test]
fn error_unauthorized_by_use_access_token_instead_of_refresh_token() {
    let now = now_ts();
    let mut repository = InMemorySecretKeyRepository::new();
    let secret_key = "secret54231".to_string();
    let user_id = new_user_id();
    let token = Token::new(user_id.clone());
    repository.add_at(&token.id, &secret_key, now);

    let (access_token, _) = token.serialize(&secret_key).expect("token serialize");

    let payload = check_refresh_token::Payload { refresh_token: access_token };
    let r = check_refresh_token::execute(payload, &repository, now)
        .expect_err("expected error, but returns ok");

    assert!(matches!(
        r,
        Error::UseCase(UseCaseError::CheckRefreshToken(
            check_refresh_token::Error::UnauthorizedRefreshToken
        ))
    ));
}

#[test]
fn check_token_pair_success() {
    let now = now_ts();
    let mut repository = InMemorySecretKeyRepository::new();
    let command = GetUserInfo::new();
    let secret_key = "secret0382".to_string();
    let user_id = new_user_id();
    let token = Token::new(user_id.clone());
    repository.add_at(&token.id, &secret_key, now);

    let (access_token, refresh_token) = token.serialize(&secret_key).expect("serialize jwt");

    let payload = check_token_pair::Payload { access_token, refresh_token };
    let r = check_token_pair::execute(payload, &repository, &command, now).unwrap();

    assert_eq!(r.user_id, user_id);
}

#[test]
fn error_unauthorized_by_not_same_token_id() {
    let now = now_ts();
    let mut repository = InMemorySecretKeyRepository::new();
    let command = GetUserInfo::new();
    let secret_key = "secret03223".to_string();
    let user_id = new_user_id();
    let mut a_token = Token::new(user_id.clone());
    let mut b_token = Token::new(user_id.clone());

    a_token.id = "96e220fe-cb9b-40f5-9f88-0c023a349b59".to_string();
    b_token.id = "d344c1db-8a6d-42d1-bc2d-d488ab8d46b6".to_string();

    repository.add_at(&a_token.id, &secret_key, now);
    repository.add_at(&b_token.id, &secret_key, now);

    let (access_token, _) = a_token.serialize(&secret_key).expect("serialize jwt");
    let (_, refresh_token) = b_token.serialize(&secret_key).expect("serialize jwt");

    let payload = check_token_pair::Payload { access_token, refresh_token };
    let r = check_token_pair::execute(payload, &repository, &command, now)
        .expect_err("expected error, but returns ok");

    assert!(matches!(
        r,
        Error::UseCase(UseCaseError::CheckTokenPair(check_token_pair::Error::InvalidTokenPair))
    ));
}

#[test]
fn error_unauthorized_by_not_same_user_id() {
    let now = now_ts();
    let mut repository = InMemorySecretKeyRepository::new();
    let command = GetUserInfo::new();
    let secret_key = "secret03458".to_string();
    let a_user_id = "bf4cf9fe-961f-4aba-a11b-17cf43c7ed39".to_string();
    let b_user_id = "7a129706-4458-493c-a0b9-11f5a57fffa7".to_string();
    let a_token = Token::new(a_user_id);
    let mut b_token = Token::new(b_user_id);

    b_token.id = a_token.id.clone();

    repository.add_at(&a_token.id, &secret_key, now);

    let (access_token, _) = a_token.serialize(&secret_key).expect("serialize jwt");
    let (_, refresh_token) = b_token.serialize(&secret_key).expect("serialize jwt");

    let payload = check_token_pair::Payload { access_token, refresh_token };
    let r = check_token_pair::execute(payload, &repository, &command, now)
        .expect_err("expected error, but returns ok");

    assert!(matches!(
        r,
        Error::UseCase(UseCaseError::CheckTokenPair(check_token_pair::Error::InvalidTokenPair))
    ));
}

#[test]
fn create_token_pair_success() {
    let now = now_ts();
    let mut repository = InMemorySecretKeyRepository::new();
    let command = GetUserInfo::new();
    let user_id = new_user_id();

    let payload = create_token_pair::Payload::UserId(user_id.clone());
    let r = create_token_pair::execute(payload, &mut repository, &command, now).unwrap();

    let payload = check_token_pair::Payload {
        access_token: r.access_token,
        refresh_token: r.refresh_token,
    };
    let r = check_token_pair::execute(payload, &repository, &command, now).unwrap();

    assert_eq!(r.user_id, user_id);
}

#[test]
fn rotation_yields_fresh_session_and_revokes_old_key() {
    let now = now_ts();
    let mut repository = InMemorySecretKeyRepository::new();
    let command = GetUserInfo::new();
    let user_id = new_user_id();

    let minted = create_token_pair::execute(
        create_token_pair::Payload::UserId(user_id.clone()),
        &mut repository,
        &command,
        now,
    )
    .unwrap();
    let old_token_id = minted.token_id.clone();

    let rotated = refresh_token_pair::execute(
        refresh_token_pair::Payload {
            access_token: minted.access_token,
            refresh_token: minted.refresh_token,
        },
        &mut repository,
        &command,
        now,
    )
    .unwrap();

    assert_ne!(rotated.token_id, old_token_id);
    assert!(repository.get_at(&old_token_id, now).is_none());
    assert_eq!(rotated.user_id, user_id);

    let r = check_token_pair::execute(
        check_token_pair::Payload {
            access_token: rotated.access_token,
            refresh_token: rotated.refresh_token,
        },
        &repository,
        &command,
        now,
    )
    .unwrap();
    assert_eq!(r.token_id, rotated.token_id);
}

#[test]
fn access_check_succeeds_then_denies_low_role() {
    let now = now_ts();
    let mut repository = InMemorySecretKeyRepository::new();
    let mut command = GetUserInfo::new();
    let user_id = "11111111-1111-1111-1111-111111111111".to_string();
    command.add_user(UserInfo { id: user_id.clone(), email: "".to_string(), role: 2 });

    let minted = create_token_pair::execute(
        create_token_pair::Payload::UserId(user_id.clone()),
        &mut repository,
        &command,
        now,
    )
    .unwrap();

    let r = check_access_token::execute(
        check_access_token::Payload {
            access_token: minted.access_token.clone(),
            minimum_role: None,
            validate_exp: true,
        },
        &repository,
        &command,
        now,
    )
    .unwrap();
    assert_eq!(r.user_id, user_id);

    let r = check_access_token::execute(
        check_access_token::Payload {
            access_token: minted.access_token,
            minimum_role: Some(5),
            validate_exp: true,
        },
        &repository,
        &command,
        now,
    )
    .expect_err("expected error, but returns ok");
    assert!(matches!(
        r,
        Error::UseCase(UseCaseError::CheckAccessToken(
            check_access_token::Error::PermissionDenied
        ))
    ));
}

#[test]
fn well_formed_token_fails_after_key_removal() {
    let now = now_ts();
    let mut repository = InMemorySecretKeyRepository::new();
    let command = GetUserInfo::new();
    let secret_key = "K1".to_string();
    let user_id = new_user_id();
    let token = Token::new(user_id);
    repository.add_at(&token.id, &secret_key, now);

    let (access_token, _) = token.serialize(&secret_key).expect("token serialize");

    repository.remove(&token.id);

    let r = check_access_token::execute(
        check_access_token::Payload {
            access_token,
            minimum_role: None,
            validate_exp: true,
        },
        &repository,
        &command,
        now,
    )
    .expect_err("expected error, but returns ok");
    assert!(matches!(
        r,
        Error::UseCase(UseCaseError::CheckAccessToken(
            check_access_token::Error::UnauthorizedAccessToken
        ))
    ));
}

#[test]
fn expired_access_low_role_rotates_and_carries_new_pair() {
    let now = now_ts();
    let mut repository = InMemorySecretKeyRepository::new();
    let mut command = GetUserInfo::new();
    let secret_key = "secret1234".to_string();
    let user_id = new_user_id();
    let token = Token::new(user_id.clone());
    repository.add_at(&token.id, &secret_key, now);
    command.add_user(UserInfo { id: user_id.clone(), email: "".to_string(), role: 1 });

    let access_token = AccessToken {
        sub: "madome access token".to_string(),
        iss: "madome.app".to_string(),
        iat: now - ACCESS_TOKEN_EXP - 30,
        exp: now - 30,
        id: token.id.clone(),
        user_id: user_id.clone(),
        _a: true,
    }
    .serialize(&secret_key);
    let refresh_token = RefreshToken {
        sub: "madome refresh token".to_string(),
        iss: "madome.app".to_string(),
        iat: now,
        exp: now + REFRESH_TOKEN_EXP,
        id: token.id.clone(),
        user_id: user_id.clone(),
        _r: true,
    }
    .serialize(&secret_key);

    let r = check_and_refresh_token_pair::execute(
        check_and_refresh_token_pair::Payload {
            access_token,
            refresh_token,
            minimum_role: Some(5),
        },
        &mut repository,
        &command,
        now,
    )
    .expect_err("expected error, but returns ok");

    match r {
        Error::UseCase(UseCaseError::CheckAndRefreshTokenPair(
            check_and_refresh_token_pair::Error::PermissionDenied(pair),
        )) => {
            let r2 = check_token_pair::execute(
                check_token_pair::Payload {
                    access_token: pair.access_token,
                    refresh_token: pair.refresh_token,
                },
                &repository,
                &command,
                now,
            )
            .unwrap();
            assert_eq!(r2.user_id, user_id);
        }
        other => panic!("unexpected error: {:?}", other),
    }
}

#[test]
fn delete_token_pair_forgets_the_session() {
    let now = now_ts();
    let mut repository = InMemorySecretKeyRepository::new();
    let command = GetUserInfo::new();
    let user_id = new_user_id();

    let minted = create_token_pair::execute(
        create_token_pair::Payload::UserId(user_id),
        &mut repository,
        &command,
        now,
    )
    .unwrap();

    delete_token_pair::execute(
        delete_token_pair::Payload {
            access_token: minted.access_token.clone(),
            refresh_token: minted.refresh_token,
        },
        &mut repository,
    )
    .expect("logout");

    assert!(repository.get_at(&minted.token_id, now).is_none());

    let r = check_access_token::execute(
        check_access_token::Payload {
            access_token: minted.access_token,
            minimum_role: None,
            validate_exp: true,
        },
        &repository,
        &command,
        now,
    );
    assert!(r.is_err());
}

#[test]
fn delete_token_pair_rejects_garbage() {
    let mut repository = InMemorySecretKeyRepository::new();
    let r = delete_token_pair::execute(
        delete_token_pair::Payload {
            access_token: "not a token".to_string(),
            refresh_token: "also not a token".to_string(),
        },
        &mut repository,
    );
    assert!(matches!(
        r,
        Err(Error::UseCase(UseCaseError::DeleteTokenPair(
            delete_token_pair::Error::InvalidToken
        )))
    ));
}

#[test]
fn create_token_pair_unknown_email_fails() {
    let now = now_ts();
    let mut repository = InMemorySecretKeyRepository::new();
    let command = GetUserInfo::new();
    let r = create_token_pair::execute(
        create_token_pair::Payload::UserEmail("nobody@example.com".to_string()),
        &mut repository,
        &command,
        now,
    );
    assert!(matches!(
        r,
        Err(Error::UseCase(UseCaseError::CreateTokenPair(
            create_token_pair::Error::NotFoundUser
        )))
    ));
}

#[test]
fn mixing_tokens_of_two_sessions_is_an_invalid_pair() {
    let now = now_ts();
    let mut repository = InMemorySecretKeyRepository::new();
    let command = GetUserInfo::new();
    let user_id = new_user_id();

    let first = create_token_pair::execute(
        create_token_pair::Payload::UserId(user_id.clone()),
        &mut repository,
        &command,
        now,
    )
    .unwrap();
    let second = create_token_pair::execute(
        create_token_pair::Payload::UserId(user_id),
        &mut repository,
        &command,
        now,
    )
    .unwrap();

    let r = check_token_pair::execute(
        check_token_pair::Payload {
            access_token: first.access_token,
            refresh_token: second.refresh_token,
        },
        &repository,
        &command,
        now,
    )
    .expect_err("expected error, but returns ok");
    assert!(matches!(
        r,
        Error::UseCase(UseCaseError::CheckTokenPair(check_token_pair::Error::InvalidTokenPair))
    ));
}

#[test]
fn error_statuses_follow_the_taxonomy() {
    assert_eq!(
        madome_auth::error::status_of(&Error::UseCase(UseCaseError::CheckAccessToken(
            check_access_token::Error::UnauthorizedAccessToken
        ))),
        401
    );
    assert_eq!(
        madome_auth::error::status_of(&Error::UseCase(UseCaseError::CheckAccessToken(
            check_access_token::Error::PermissionDenied
        ))),
        403
    );
    assert_eq!(
        madome_auth::error::status_of(&Error::UseCase(UseCaseError::CheckTokenPair(
            check_token_pair::Error::InvalidTokenPair
        ))),
        401
    );
    assert_eq!(
        madome_auth::error::status_of(&Error::UseCase(UseCaseError::CreateTokenPair(
            create_token_pair::Error::NotFoundUser
        ))),
        404
    );
}
