use madome_auth::authcode_repository::InMemoryAuthcodeRepository;
use madome_auth::check_access_token;
use madome_auth::check_authcode;
use madome_auth::command::GetUserInfo;
use madome_auth::delete_token_pair;
use madome_auth::model::Model;
use madome_auth::msg::Msg;
use madome_auth::resolver::resolve;
use madome_auth::secret_key_repository::InMemorySecretKeyRepository;
use madome_auth::user::UserInfo;

#[test]
fn full_login_flow_through_the_resolver() {
    let now = chrono::Utc::now().timestamp();
    let mut authcodes = InMemoryAuthcodeRepository::new();
    let mut secret_keys = InMemorySecretKeyRepository::new();
    let mut command = GetUserInfo::new();
    command.add_user(UserInfo {
        id: "22222222-2222-2222-2222-222222222222".to_string(),
        email: "login@example.com".to_string(),
        role: 1,
    });

    // ask for a one-time code
    let issued = match resolve(
        Msg::CreateAuthcode(madome_auth::create_authcode::Payload {
            user_email: "login@example.com".to_string(),
            ses_flag: false,
        }),
        &mut authcodes,
        &mut secret_keys,
        &command,
        now,
    )
    .unwrap()
    {
        Model::CreateAuthcode(m) => m,
        _ => panic!("wrong model"),
    };

    // trade the code for a token pair
    let pair = match resolve(
        Msg::CreateTokenPair(check_authcode::Payload { code: issued.code }),
        &mut authcodes,
        &mut secret_keys,
        &command,
        now,
    )
    .unwrap()
    {
        Model::CreateTokenPair(m) => m,
        _ => panic!("wrong model"),
    };
    assert_eq!(pair.user_id, "22222222-2222-2222-2222-222222222222");

    // the access token passes the check
    let checked = match resolve(
        Msg::CheckAccessToken(check_access_token::Payload {
            access_token: pair.access_token.clone(),
            minimum_role: Some(1),
            validate_exp: true,
        }),
        &mut authcodes,
        &mut secret_keys,
        &command,
        now,
    )
    .unwrap()
    {
        Model::CheckAccessToken(m) => m,
        _ => panic!("wrong model"),
    };
    assert_eq!(checked.token_id, pair.token_id);

    // rotation answers with a fresh pair
    let rotated = match resolve(
        Msg::RefreshTokenPair(madome_auth::refresh_token_pair::Payload {
            access_token: pair.access_token.clone(),
            refresh_token: pair.refresh_token.clone(),
        }),
        &mut authcodes,
        &mut secret_keys,
        &command,
        now,
    )
    .unwrap()
    {
        Model::CreateTokenPair(m) => m,
        _ => panic!("wrong model"),
    };
    assert_ne!(rotated.token_id, pair.token_id);

    // logout forgets the rotated session
    match resolve(
        Msg::DeleteTokenPair(delete_token_pair::Payload {
            access_token: rotated.access_token,
            refresh_token: rotated.refresh_token,
        }),
        &mut authcodes,
        &mut secret_keys,
        &command,
        now,
    )
    .unwrap()
    {
        Model::DeleteTokenPair(_) => {}
        _ => panic!("wrong model"),
    }
    assert!(secret_keys.get_at(&rotated.token_id, now).is_none());
}
