use base64::engine::general_purpose::URL_SAFE_NO_PAD;
use base64::Engine;
use cc_switch::accounts::{
    account_key_from_auth, clean_label, decode_id_token, first_non_empty, id_token_body,
    mask_email, metadata_from_auth, safe_file_name, validate_auth_file, AuthFile, AuthSnapshot,
    JwtAuthNamespace, JwtAuthPayload, JwtOrganization,
};
use cc_switch::error::AppError;
use cc_switch::json::{parse_json, parse_json_bytes, Json};

fn json(text: &str) -> Json {
    parse_json(text).unwrap()
}

fn owned(value: Option<&str>) -> Option<String> {
    value.map(|text| text.to_string())
}

/// The claims as the application reads them from the bytes of a token.
fn claims(bytes: &[u8]) -> JwtAuthPayload {
    let document = parse_json_bytes(bytes).unwrap();
    let auth = document.get("https://api.openai.com/auth").map(|space| {
        let organizations = match space.get("organizations") {
            Some(Json::Array(items)) => items
                .iter()
                .map(|item| JwtOrganization {
                    id: owned(item.get_text("id")),
                    is_default: matches!(item.get("is_default"), Some(Json::Bool(true))),
                })
                .collect(),
            _ => Vec::new(),
        };
        JwtAuthNamespace {
            chatgpt_user_id: owned(space.get_text("chatgpt_user_id")),
            chatgpt_plan_type: owned(space.get_text("chatgpt_plan_type")),
            organizations,
        }
    });
    JwtAuthPayload {
        email: owned(document.get_text("email")),
        name: owned(document.get_text("name")),
        auth,
    }
}

fn login(auth: AuthSnapshot) -> AuthFile {
    let claims = decode_id_token(&auth).map(|bytes| claims(&bytes));
    AuthFile { auth, claims }
}

fn api_key(key: &str) -> AuthFile {
    login(AuthSnapshot {
        auth_mode: Some("apikey".to_string()),
        tokens: None,
        openai_api_key: Some(Json::Text(key.to_string())),
    })
}

#[test]
fn chatgpt_account_key_uses_user_and_workspace() {
    let payload = URL_SAFE_NO_PAD.encode(
        "{\"email\": \"person@example.com\", \"name\": \"Person\", \
         \"https://api.openai.com/auth\": {\"chatgpt_user_id\": \"user-1\", \
         \"chatgpt_plan_type\": \"plus\", \
         \"organizations\": [{\"id\": \"org-1\", \"is_default\": true}]}}",
    );
    let auth = login(AuthSnapshot {
        auth_mode: Some("chatgpt".to_string()),
        tokens: Some(json(&format!(
            "{{\"id_token\": \"header.{payload}.sig\", \"workspace_id\": \"workspace-1\"}}"
        ))),
        openai_api_key: None,
    });

    assert_eq!(account_key_from_auth(&auth), "user-1::workspace-1");
    let metadata = metadata_from_auth(&auth);
    assert_eq!(metadata.email, "person@example.com");
    assert_eq!(metadata.name, "Person");
    assert_eq!(metadata.plan, "plus");
}

#[test]
fn email_mask_keeps_domain_without_revealing_full_name() {
    assert_eq!(mask_email("abcdef@example.com"), "ab****@example.com");
    assert_eq!(mask_email("a@example.com"), "a***@example.com");
}

#[test]
fn mask_of_other_texts() {
    assert_eq!(mask_email(""), "");
    assert_eq!(mask_email("nobody"), "hidden");
    assert_eq!(mask_email("@example.com"), "***@example.com");
    assert_eq!(mask_email("abc@a@b"), "ab***@a@b");
    assert_eq!(mask_email("äöüß@x"), "äö***@x");
}

#[test]
fn account_key_falls_back_from_claims_to_tokens() {
    let tokens = |text: &str| AuthFile {
        auth: AuthSnapshot {
            auth_mode: Some("chatgpt".to_string()),
            tokens: Some(json(text)),
            openai_api_key: None,
        },
        claims: None,
    };
    assert_eq!(account_key_from_auth(&tokens("{}")), "current::workspace");
    assert_eq!(
        account_key_from_auth(&tokens("{\"account_id\": \"acc\"}")),
        "acc::acc"
    );
    let mut with_org = tokens("{}");
    with_org.claims = Some(JwtAuthPayload {
        email: None,
        name: None,
        auth: Some(JwtAuthNamespace {
            chatgpt_user_id: None,
            chatgpt_plan_type: None,
            organizations: vec![
                JwtOrganization { id: Some("first".to_string()), is_default: false },
                JwtOrganization { id: Some("home".to_string()), is_default: true },
            ],
        }),
    });
    assert_eq!(account_key_from_auth(&with_org), "current::home");
    if let Some(claims) = &mut with_org.claims {
        if let Some(auth) = &mut claims.auth {
            auth.organizations[1].is_default = false;
        }
    }
    assert_eq!(account_key_from_auth(&with_org), "current::first");
    assert_eq!(metadata_from_auth(&with_org).email, "");
}

#[test]
fn api_key_account_is_a_fingerprint() {
    // The first eight bytes of the SHA-256 of "abc".
    assert_eq!(account_key_from_auth(&api_key("abc")), "apikey::ba7816bf8f01cfea");
    assert_eq!(account_key_from_auth(&api_key("")), "apikey::e3b0c44298fc1c14");
}

#[test]
fn token_that_is_no_token_has_no_claims() {
    assert_eq!(id_token_body("a.b.c").as_deref(), Some("b"));
    assert_eq!(id_token_body("a.").as_deref(), Some(""));
    assert_eq!(id_token_body("a"), None);
    let with_token = |token: &str| AuthSnapshot {
        auth_mode: None,
        tokens: Some(Json::Object(vec![(
            "id_token".to_string(),
            Json::Text(token.to_string()),
        )])),
        openai_api_key: None,
    };
    assert_eq!(decode_id_token(&with_token("h.aGk.s")), Some(b"hi".to_vec()));
    assert_eq!(decode_id_token(&with_token("h.aGk=.s")), None);
    assert_eq!(decode_id_token(&with_token("h.!!.s")), None);
    assert_eq!(decode_id_token(&with_token("none")), None);
}

#[test]
fn auth_file_is_checked() {
    let auth = |mode: Option<&str>, tokens: Option<Json>, key: Option<Json>| AuthSnapshot {
        auth_mode: owned(mode),
        tokens,
        openai_api_key: key,
    };
    assert!(validate_auth_file("p", &auth(Some("chatgpt"), Some(Json::Null), None)).is_ok());
    let error = validate_auth_file("p", &auth(Some("chatgpt"), None, None)).unwrap_err();
    assert!(matches!(error, AppError::Config(_)));
    assert_eq!(error.text(), "ChatGPT snapshot is missing tokens: p");
    let key = Json::Text("sk".to_string());
    assert!(validate_auth_file("p", &auth(Some("apikey"), None, Some(key))).is_ok());
    let error = validate_auth_file("p", &auth(Some("apikey"), None, Some(Json::Null))).unwrap_err();
    assert_eq!(error.text(), "API key snapshot is missing OPENAI_API_KEY: p");
    for mode in [None, Some("other")] {
        let error = validate_auth_file("p", &auth(mode, None, None)).unwrap_err();
        assert_eq!(error.text(), "Unsupported auth_mode in snapshot: p");
    }
}

#[test]
fn names_and_labels() {
    assert_eq!(first_non_empty(&vec!["", "  ", " a ", "b"]), "a");
    assert_eq!(first_non_empty(&vec!["", "\t"]), "");
    assert_eq!(clean_label(None), "");
    assert_eq!(clean_label(Some("  mine \n")), "mine");
    assert_eq!(clean_label(Some(&"x".repeat(100))), "x".repeat(80));
    assert_eq!(safe_file_name("user-1::a/b.c_d ä"), "user-1__a_b.c_d__");
    assert_eq!(safe_file_name(&"y".repeat(200)).len(), 180);
}
