//! Codex accounts: who an auth file belongs to, and how an account is shown.

use vstd::prelude::*;
use base64::Engine;
use crate::error::{AppError, Fault};
use crate::hash;
use crate::json;
use crate::json::{Json, JsonTree};
use crate::paths;
use crate::text;

verus! {

/// What an auth file holds.
#[derive(Debug)]
pub struct AuthSnapshot {
    pub auth_mode: Option<String>,
    pub tokens: Option<Json>,
    pub openai_api_key: Option<Json>,
}

/// What an auth file holds.
pub struct AuthFacts {
    pub auth_mode: Option<Seq<char>>,
    pub tokens: Option<JsonTree>,
    pub openai_api_key: Option<JsonTree>,
}

/// The document of an optional value.
pub open spec fn opt_tree(value: Option<Json>) -> Option<JsonTree> {
    match value {
        Some(v) => Some(v@),
        None => None,
    }
}

impl View for AuthSnapshot {
    type V = AuthFacts;

    open spec fn view(&self) -> AuthFacts {
        AuthFacts {
            auth_mode: text::opt_text(self.auth_mode),
            tokens: opt_tree(self.tokens),
            openai_api_key: opt_tree(self.openai_api_key),
        }
    }
}

/// An organization that a token names.
#[derive(Debug)]
pub struct JwtOrganization {
    pub id: Option<String>,
    pub is_default: bool,
}

/// What a token says of its owner at OpenAI.
#[derive(Debug)]
pub struct JwtAuthNamespace {
    pub chatgpt_user_id: Option<String>,
    pub chatgpt_plan_type: Option<String>,
    pub organizations: Vec<JwtOrganization>,
}

/// What a token says of its owner.
#[derive(Debug)]
pub struct JwtAuthPayload {
    pub email: Option<String>,
    pub name: Option<String>,
    pub auth: Option<JwtAuthNamespace>,
}

/// What a token says of its owner.
pub struct Claims {
    pub email: Option<Seq<char>>,
    pub name: Option<Seq<char>>,
    pub user: Option<Seq<char>>,
    pub plan: Option<Seq<char>>,
    /// The ids of the organizations, each with whether it is the default.
    pub organizations: Seq<(Option<Seq<char>>, bool)>,
}

/// The organizations of a token.
pub open spec fn organizations_of(items: Seq<JwtOrganization>) -> Seq<(Option<Seq<char>>, bool)> {
    items.map_values(|o: JwtOrganization| (text::opt_text(o.id), o.is_default))
}

impl View for JwtAuthPayload {
    type V = Claims;

    open spec fn view(&self) -> Claims {
        Claims {
            email: text::opt_text(self.email),
            name: text::opt_text(self.name),
            user: match self.auth {
                Some(auth) => text::opt_text(auth.chatgpt_user_id),
                None => None,
            },
            plan: match self.auth {
                Some(auth) => text::opt_text(auth.chatgpt_plan_type),
                None => None,
            },
            organizations: match self.auth {
                Some(auth) => organizations_of(auth.organizations@),
                None => Seq::empty(),
            },
        }
    }
}

/// An auth file with what its token says.
#[derive(Debug)]
pub struct AuthFile {
    pub auth: AuthSnapshot,
    pub claims: Option<JwtAuthPayload>,
}

/// An auth file with what its token says.
pub struct Login {
    pub auth: AuthFacts,
    pub claims: Option<Claims>,
}

impl View for AuthFile {
    type V = Login;

    open spec fn view(&self) -> Login {
        Login {
            auth: self.auth@,
            claims: match self.claims {
                Some(claims) => Some(claims@),
                None => None,
            },
        }
    }
}

/// What base64 in its URL-safe alphabet without padding stands for.
pub uninterp spec fn base64url(encoded: Seq<char>) -> Option<Seq<u8>>;

/// `base64::engine::general_purpose::URL_SAFE_NO_PAD.decode`: the bytes, and
/// nothing where the text is refused. It depends on the text alone.
#[verifier::external_body]
fn decode_base64url(encoded: &str) -> (r: Option<Vec<u8>>)
    ensures
        match r {
            Some(bytes) => base64url(encoded@) == Some(bytes@),
            None => base64url(encoded@) is None,
        },
{
    base64::engine::general_purpose::URL_SAFE_NO_PAD.decode(encoded).ok()
}

/// The text of a member of the tokens.
pub open spec fn token_text(auth: AuthFacts, key: Seq<char>) -> Option<Seq<char>> {
    match auth.tokens {
        Some(tokens) => tokens.get_text(key),
        None => None,
    }
}

/// The second of the parts of a token that points set apart.
pub open spec fn token_body(token: Seq<char>) -> Option<Seq<char>> {
    let parts = paths::pieces(token, '.');
    if parts.len() > 1 {
        Some(parts[1])
    } else {
        None
    }
}

/// The bytes in which the token of an auth file speaks of its owner.
pub open spec fn claim_bytes(auth: AuthFacts) -> Option<Seq<u8>> {
    match token_text(auth, "id_token"@) {
        Some(token) => match token_body(token) {
            Some(body) => base64url(body),
            None => None,
        },
        None => None,
    }
}

/// The text of a member of the tokens.
fn read_token<'a>(auth: &'a AuthSnapshot, key: &str) -> (r: Option<&'a str>)
    ensures
        json::opt_str(r) == token_text(auth@, key@),
{
    match &auth.tokens {
        Some(tokens) => tokens.get_text(key),
        None => None,
    }
}

/// The second of the parts of a token that points set apart.
pub fn id_token_body(token: &str) -> (r: Option<String>)
    ensures
        text::opt_text(r) == token_body(token@),
{
    let parts = paths::split_at_mark(token, '.');
    assert(paths::texts(parts@).len() == parts@.len());
    if parts.len() > 1 {
        assert(paths::texts(parts@)[1] == parts@[1]@);
        Some(parts[1].as_str().to_owned())
    } else {
        None
    }
}

/// The bytes in which the token of an auth file speaks of its owner.
pub fn decode_id_token(auth: &AuthSnapshot) -> (r: Option<Vec<u8>>)
    ensures
        match r {
            Some(bytes) => claim_bytes(auth@) == Some(bytes@),
            None => claim_bytes(auth@) is None,
        },
{
    let token = match read_token(auth, "id_token") {
        Some(token) => token,
        None => return None,
    };
    match id_token_body(token) {
        Some(body) => decode_base64url(body.as_str()),
        None => None,
    }
}

/// The position of the default organization, from `from` on.
pub open spec fn default_from(items: Seq<(Option<Seq<char>>, bool)>, from: int) -> Option<int>
    decreases items.len() - from,
{
    if from < 0 || from >= items.len() {
        None
    } else if items[from].1 {
        Some(from)
    } else {
        default_from(items, from + 1)
    }
}

/// The id of the default organization, or else of the first.
pub open spec fn home_organization(items: Seq<(Option<Seq<char>>, bool)>) -> Option<Seq<char>> {
    match default_from(items, 0) {
        Some(i) => items[i].0,
        None => if items.len() > 0 {
            items[0].0
        } else {
            None
        },
    }
}

/// The first of two optional texts that is there.
pub open spec fn either(a: Option<Seq<char>>, b: Option<Seq<char>>) -> Option<Seq<char>> {
    match a {
        Some(value) => Some(value),
        None => b,
    }
}

/// An optional text, or else another.
pub open spec fn or_else(a: Option<Seq<char>>, b: Seq<char>) -> Seq<char> {
    match a {
        Some(value) => value,
        None => b,
    }
}

/// The key of the account that an auth file belongs to: a fingerprint of its
/// API key, or its user and workspace.
pub open spec fn account_key(login: Login) -> Seq<char> {
    if login.auth.auth_mode == Some("apikey"@) {
        let key = match login.auth.openai_api_key {
            Some(value) => or_else(value.as_text(), ""@),
            None => ""@,
        };
        "apikey::"@ + hash::fingerprint(key)
    } else {
        let account = token_text(login.auth, "account_id"@);
        let user = match login.claims {
            Some(claims) => claims.user,
            None => None,
        };
        let home = match login.claims {
            Some(claims) => home_organization(claims.organizations),
            None => None,
        };
        or_else(either(user, account), "current"@) + "::"@ + or_else(
            either(either(token_text(login.auth, "workspace_id"@), account), home),
            "workspace"@,
        )
    }
}

/// The id of the default organization, or else of the first.
fn find_home(items: &Vec<JwtOrganization>) -> (r: Option<String>)
    ensures
        text::opt_text(r) == home_organization(organizations_of(items@)),
{
    let ghost all = organizations_of(items@);
    let mut i: usize = 0;
    while i < items.len()
        invariant
            i <= items@.len(),
            all == organizations_of(items@),
            default_from(all, i as int) == default_from(all, 0),
        decreases items@.len() - i,
    {
        assert(all[i as int] == (text::opt_text(items@[i as int].id), items@[i as int].is_default));
        if items[i].is_default {
            return match &items[i].id {
                Some(id) => Some(id.as_str().to_owned()),
                None => None,
            };
        }
        i += 1;
    }
    if items.len() == 0 {
        return None;
    }
    assert(all[0] == (text::opt_text(items@[0].id), items@[0].is_default));
    match &items[0].id {
        Some(id) => Some(id.as_str().to_owned()),
        None => None,
    }
}

/// The key of the account that an auth file belongs to.
pub fn account_key_from_auth(file: &AuthFile) -> (r: String)
    ensures
        r@ == account_key(file@),
{
    let api = match &file.auth.auth_mode {
        Some(mode) => text::same_text(mode.as_str(), "apikey"),
        None => false,
    };
    if api {
        let key = match &file.auth.openai_api_key {
            Some(value) => match value.as_text() {
                Some(key) => key,
                None => "",
            },
            None => "",
        };
        return text::joined("apikey::", hash::short_sha256(key).as_str());
    }
    let account = read_token(&file.auth, "account_id");
    let mut user: Option<String> = None;
    let mut home: Option<String> = None;
    if let Some(claims) = &file.claims {
        if let Some(auth) = &claims.auth {
            if let Some(id) = &auth.chatgpt_user_id {
                user = Some(id.as_str().to_owned());
            }
            home = find_home(&auth.organizations);
        }
    }
    let account_id = match user {
        Some(id) => id,
        None => match account {
            Some(id) => id.to_owned(),
            None => "current".to_owned(),
        },
    };
    let workspace_id = match read_token(&file.auth, "workspace_id") {
        Some(id) => id.to_owned(),
        None => match account {
            Some(id) => id.to_owned(),
            None => match home {
                Some(id) => id,
                None => "workspace".to_owned(),
            },
        },
    };
    text::joined3(account_id.as_str(), "::", workspace_id.as_str())
}

/// What is known of an account's owner.
#[derive(Debug)]
pub struct AccountMetadata {
    pub email: String,
    pub name: String,
    pub plan: String,
}

/// What is known of an account's owner: the email, the name and the plan.
pub open spec fn metadata_of(login: Login) -> (Seq<char>, Seq<char>, Seq<char>) {
    match login.claims {
        Some(claims) => (
            or_else(claims.email, ""@),
            or_else(claims.name, ""@),
            or_else(claims.plan, ""@),
        ),
        None => (""@, ""@, ""@),
    }
}

fn text_or_empty(value: &Option<String>) -> (r: String)
    ensures
        r@ == or_else(text::opt_text(*value), ""@),
{
    match value {
        Some(text) => text.as_str().to_owned(),
        None => "".to_owned(),
    }
}

/// What is known of an account's owner.
pub fn metadata_from_auth(file: &AuthFile) -> (r: AccountMetadata)
    ensures
        (r.email@, r.name@, r.plan@) == metadata_of(file@),
{
    match &file.claims {
        Some(claims) => AccountMetadata {
            email: text_or_empty(&claims.email),
            name: text_or_empty(&claims.name),
            plan: match &claims.auth {
                Some(auth) => text_or_empty(&auth.chatgpt_plan_type),
                None => "".to_owned(),
            },
        },
        None => AccountMetadata {
            email: "".to_owned(),
            name: "".to_owned(),
            plan: "".to_owned(),
        },
    }
}

/// What is wrong with an auth file at `path`: a ChatGPT login needs tokens,
/// an API key login its key, and no other is known.
pub open spec fn auth_fault(path: Seq<char>, auth: AuthFacts) -> Option<Fault> {
    if auth.auth_mode == Some("chatgpt"@) {
        if auth.tokens is None {
            Some(Fault::Config("ChatGPT snapshot is missing tokens: "@ + path))
        } else {
            None
        }
    } else if auth.auth_mode == Some("apikey"@) {
        if auth.openai_api_key matches Some(value) && value.as_text() is Some {
            None
        } else {
            Some(Fault::Config("API key snapshot is missing OPENAI_API_KEY: "@ + path))
        }
    } else {
        Some(Fault::Config("Unsupported auth_mode in snapshot: "@ + path))
    }
}

/// Whether an auth file at `path` can be used.
pub fn validate_auth_file(path: &str, auth: &AuthSnapshot) -> (r: Result<(), AppError>)
    ensures
        match r {
            Ok(_) => auth_fault(path@, auth@) is None,
            Err(error) => auth_fault(path@, auth@) == Some(error@),
        },
{
    let mode = match &auth.auth_mode {
        Some(mode) => mode.as_str(),
        None => {
            return Err(
                AppError::Config(text::joined("Unsupported auth_mode in snapshot: ", path)),
            );
        },
    };
    if text::same_text(mode, "chatgpt") {
        if auth.tokens.is_none() {
            return Err(
                AppError::Config(text::joined("ChatGPT snapshot is missing tokens: ", path)),
            );
        }
        return Ok(());
    }
    if text::same_text(mode, "apikey") {
        let keyed = match &auth.openai_api_key {
            Some(value) => value.as_text().is_some(),
            None => false,
        };
        if !keyed {
            return Err(
                AppError::Config(
                    text::joined("API key snapshot is missing OPENAI_API_KEY: ", path),
                ),
            );
        }
        return Ok(());
    }
    Err(AppError::Config(text::joined("Unsupported auth_mode in snapshot: ", path)))
}

/// The first of the texts that is not blank, trimmed.
pub open spec fn first_filled(values: Seq<Seq<char>>) -> Seq<char>
    decreases values.len(),
{
    if values.len() == 0 {
        Seq::empty()
    } else if text::trimmed(values[0]).len() > 0 {
        text::trimmed(values[0])
    } else {
        first_filled(values.skip(1))
    }
}

/// The first of the texts that is not blank, trimmed.
pub fn first_non_empty(values: &Vec<&str>) -> (r: String)
    ensures
        r@ == first_filled(hash::views(values@)),
{
    let ghost all = hash::views(values@);
    let mut i: usize = 0;
    assert(all.skip(0) =~= all);
    while i < values.len()
        invariant
            i <= values@.len(),
            all == hash::views(values@),
            first_filled(all) == first_filled(all.skip(i as int)),
        decreases values@.len() - i,
    {
        assert(all.skip(i as int)[0] == values@[i as int]@);
        assert(all.skip(i as int).skip(1) =~= all.skip(i + 1));
        let value = text::trim(values[i]);
        if !value.as_str().is_empty() {
            return value;
        }
        i += 1;
    }
    let empty = String::new();
    assert(all.skip(i as int).len() == 0);
    empty
}

/// So many stars.
pub open spec fn stars(n: int) -> Seq<char> {
    Seq::new(n as nat, |i: int| '*')
}

/// How many characters of a mailbox's name are shown.
pub open spec fn shown_chars(name: Seq<char>) -> int {
    if name.len() <= 2 {
        1
    } else {
        2
    }
}

/// How many stars stand for the rest, three at least.
pub open spec fn hidden_chars(name: Seq<char>) -> int {
    let rest = name.len() - shown_chars(name);
    if rest < 3 {
        3
    } else {
        rest
    }
}

/// An email address of which the beginning and the domain are shown.
pub open spec fn masked(email: Seq<char>) -> Seq<char> {
    match text::parted(email, "@"@) {
        Some(parts) => text::first_chars(parts.0, shown_chars(parts.0)) + stars(
            hidden_chars(parts.0),
        ) + "@"@ + parts.1,
        None => if email.len() == 0 {
            ""@
        } else {
            "hidden"@
        },
    }
}

/// An email address of which the beginning and the domain are shown.
pub fn mask_email(email: &str) -> (r: String)
    ensures
        r@ == masked(email@),
{
    let parts = match text::split_once(email, "@") {
        Some(parts) => parts,
        None => {
            if email.is_empty() {
                return "".to_owned();
            }
            return "hidden".to_owned();
        },
    };
    let name = parts.0.as_str();
    let length: usize = name.unicode_len();
    let shown: usize = if length <= 2 {
        1
    } else {
        2
    };
    let rest: usize = length.saturating_sub(shown);
    let hidden: usize = if rest < 3 {
        3
    } else {
        rest
    };
    let mut out = text::take_chars(name, shown);
    let ghost visible = out@;
    let mut i: usize = 0;
    assert(visible + stars(0) =~= visible);
    while i < hidden
        invariant
            i <= hidden,
            out@ == visible + stars(i as int),
        decreases hidden - i,
    {
        out.push('*');
        assert(visible + stars(i + 1) =~= (visible + stars(i as int)).push('*'));
        i += 1;
    }
    out.append("@");
    out.append(parts.1.as_str());
    out
}

/// A masked address shows at most the first two characters of the mailbox's
/// name, and then at least three stars before the `@`.
pub proof fn law_mask_hides_the_name(name: Seq<char>, domain: Seq<char>)
    requires
        text::parted(name + "@"@ + domain, "@"@) == Some((name, domain)),
    ensures
        ({
            let out = masked(name + "@"@ + domain);
            let shown = text::first_chars(name, shown_chars(name));
            &&& shown.len() <= 2
            &&& out.take(shown.len() as int) == shown
            &&& forall|i: int|
                shown.len() <= i < out.len() - domain.len() - 1 ==> #[trigger] out[i] == '*'
            &&& out.len() - domain.len() - 1 - shown.len() >= 3
            &&& out.skip(out.len() - domain.len()) == domain
        }),
{
    reveal_strlit("@");
    assert("@"@.len() == 1);
    let out = masked(name + "@"@ + domain);
    let shown = text::first_chars(name, shown_chars(name));
    let hidden = stars(hidden_chars(name));
    assert(out == shown + hidden + "@"@ + domain);
    assert(out.take(shown.len() as int) =~= shown);
    assert(out.skip(out.len() - domain.len()) =~= domain);
    assert forall|i: int| shown.len() <= i < out.len() - domain.len() - 1 implies #[trigger] out[i]
        == '*' by {
        assert(out[i] == hidden[i - shown.len()]);
    }
}

/// A label as it is kept: trimmed, and of no more than eighty characters.
pub open spec fn kept_label(label: Option<Seq<char>>) -> Seq<char> {
    text::first_chars(text::trimmed(or_else(label, ""@)), 80)
}

/// A label as it is kept.
pub fn clean_label(label: Option<&str>) -> (r: String)
    ensures
        r@ == kept_label(json::opt_str(label)),
{
    let value = match label {
        Some(value) => value,
        None => "",
    };
    text::take_chars(text::trim(value).as_str(), 80)
}

/// A character that a file's name may hold as it is.
pub open spec fn plain_char(c: char) -> bool {
    ('a' <= c && c <= 'z') || ('A' <= c && c <= 'Z') || ('0' <= c && c <= '9') || c == '.' || c
        == '_' || c == '-'
}

/// A character as a file's name holds it.
pub open spec fn file_char(c: char) -> char {
    if plain_char(c) {
        c
    } else {
        '_'
    }
}

/// A text as a file's name: no more than 180 characters, and `_` for all that
/// are not plain.
pub open spec fn file_text(input: Seq<char>) -> Seq<char> {
    text::first_chars(input, 180).map_values(|c: char| file_char(c))
}

/// A text as a file's name.
pub fn safe_file_name(input: &str) -> (r: String)
    ensures
        r@ == file_text(input@),
{
    let part = text::take_chars(input, 180);
    let chars = text::chars_of(part.as_str());
    let mut out = String::new();
    let mut i: usize = 0;
    assert(out@ =~= chars@.take(0).map_values(|c: char| file_char(c)));
    while i < chars.len()
        invariant
            i <= chars@.len(),
            out@ == chars@.take(i as int).map_values(|c: char| file_char(c)),
        decreases chars@.len() - i,
    {
        let c = chars[i];
        let plain = ('a' <= c && c <= 'z') || ('A' <= c && c <= 'Z') || ('0' <= c && c <= '9') || c
            == '.' || c == '_' || c == '-';
        let ghost before = out@;
        if plain {
            out.push(c);
        } else {
            out.push('_');
        }
        assert(chars@.take(i + 1).map_values(|c: char| file_char(c)) =~= before.push(
            file_char(c),
        ));
        i += 1;
    }
    assert(chars@.take(chars@.len() as int) =~= chars@);
    out
}

/// A text that was made a file's name holds no `/`, so the file stays in its
/// directory.
pub proof fn law_file_text_stays_in_its_directory(dir: Seq<char>, input: Seq<char>)
    ensures
        paths::parts(paths::inside(dir, file_text(input) + ".json"@)) == paths::parts(dir).push(
            file_text(input) + ".json"@,
        ),
{
    let name = file_text(input) + ".json"@;
    reveal_strlit(".json");
    reveal_strlit(".");
    assert(".json"@.len() == 5);
    assert("."@.len() == 1);
    assert forall|i: int| 0 <= i < name.len() implies #[trigger] name[i] != '/' by {
        if i < file_text(input).len() {
            assert(name[i] == file_char(text::first_chars(input, 180)[i]));
        } else {
            assert(name[i] == ".json"@[i - file_text(input).len()]);
        }
    }
    paths::law_name_stays_inside(dir, name);
}

/// The organizations that the token of a login names.
pub open spec fn named_organizations(login: Login) -> Seq<(Option<Seq<char>>, bool)> {
    match login.claims {
        Some(claims) => claims.organizations,
        None => Seq::empty(),
    }
}

/// The key of a ChatGPT login names its user before the `::`, and before all
/// else by the id that the token gives; behind it, it names the workspace, and
/// where there is none, the account that the login is for, whatever the token
/// says of organizations. Only without an account does the organization count.
pub proof fn law_account_key_names_user_and_workspace(login: Login, tokens: JsonTree, d: int)
    requires
        login.auth.auth_mode != Some("apikey"@),
        login.auth.tokens == Some(tokens),
    ensures
        ({
            let key = account_key(login);
            let workspace = tokens.get("workspace_id"@);
            let account = tokens.get("account_id"@);
            let user = match login.claims {
                Some(claims) => claims.user,
                None => None,
            };
            let homes = named_organizations(login);
            let who = match (user, account) {
                (Some(id), _) => id,
                (None, Some(JsonTree::Text(id))) => id,
                _ => "current"@,
            };
            &&& workspace matches Some(JsonTree::Text(id)) ==> key == who + "::"@ + id
            &&& !(workspace matches Some(JsonTree::Text(_))) ==> match account {
                Some(JsonTree::Text(id)) => key == who + "::"@ + id,
                _ => {
                    &&& 0 <= d < homes.len() && homes[d].1 && (forall|k: int|
                        0 <= k < d ==> !(#[trigger] homes[k]).1) ==> match homes[d].0 {
                        Some(id) => key == who + "::"@ + id,
                        None => key == who + "::workspace"@,
                    }
                    &&& homes.len() > 0 && (forall|k: int|
                        0 <= k < homes.len() ==> !(#[trigger] homes[k]).1) ==> match homes[0].0 {
                        Some(id) => key == who + "::"@ + id,
                        None => key == who + "::workspace"@,
                    }
                    &&& homes.len() == 0 ==> key == who + "::workspace"@
                },
            }
        }),
{
    let homes = named_organizations(login);
    if 0 <= d < homes.len() && homes[d].1 && (forall|k: int| 0 <= k < d ==> !(#[trigger] homes[k]).1) {
        lemma_default_from(homes, 0, d);
    }
    if forall|k: int| 0 <= k < homes.len() ==> !(#[trigger] homes[k]).1 {
        lemma_no_default(homes, 0);
    }
    let who = or_else(
        either(
            match login.claims {
                Some(claims) => claims.user,
                None => None,
            },
            token_text(login.auth, "account_id"@),
        ),
        "current"@,
    );
    reveal_strlit("::");
    reveal_strlit("workspace");
    reveal_strlit("::workspace");
    assert(who + "::workspace"@ =~= who + "::"@ + "workspace"@);
}

proof fn lemma_default_from(items: Seq<(Option<Seq<char>>, bool)>, from: int, d: int)
    requires
        0 <= from <= d < items.len(),
        items[d].1,
        forall|k: int| from <= k < d ==> !(#[trigger] items[k]).1,
    ensures
        default_from(items, from) == Some(d),
    decreases d - from,
{
    if from < d {
        assert(!items[from].1);
        lemma_default_from(items, from + 1, d);
    }
}

proof fn lemma_no_default(items: Seq<(Option<Seq<char>>, bool)>, from: int)
    requires
        0 <= from,
        forall|k: int| from <= k < items.len() ==> !(#[trigger] items[k]).1,
    ensures
        default_from(items, from) is None,
    decreases items.len() - from,
{
    if from < items.len() {
        assert(!items[from].1);
        lemma_no_default(items, from + 1);
    }
}

/// Two logins of one user for different accounts have different keys, so that
/// the snapshot of one never takes the place of the other: a personal login
/// and one of a team are told apart, and so are two workspaces.
pub proof fn law_accounts_of_a_user_are_told_apart(
    a: Login,
    b: Login,
    x: JsonTree,
    y: JsonTree,
    user: Seq<char>,
    first: Seq<char>,
    second: Seq<char>,
)
    requires
        a.auth.auth_mode != Some("apikey"@),
        b.auth.auth_mode != Some("apikey"@),
        a.auth.tokens == Some(x),
        b.auth.tokens == Some(y),
        a.claims matches Some(claims) && claims.user == Some(user),
        b.claims matches Some(claims) && claims.user == Some(user),
        first != second,
        ({
            ||| x.get("workspace_id"@) == Some(JsonTree::Text(first)) && y.get("workspace_id"@)
                == Some(JsonTree::Text(second))
            ||| x.get("workspace_id"@) is None && y.get("workspace_id"@) is None && x.get(
                "account_id"@,
            ) == Some(JsonTree::Text(first)) && y.get("account_id"@) == Some(
                JsonTree::Text(second),
            )
        }),
    ensures
        account_key(a) != account_key(b),
{
    law_account_key_names_user_and_workspace(a, x, 0);
    law_account_key_names_user_and_workspace(b, y, 0);
    let head = user + "::"@;
    let left = head + first;
    let right = head + second;
    if left == right {
        assert(left.skip(head.len() as int) =~= first);
        assert(right.skip(head.len() as int) =~= second);
    }
}

/// Logins with an API key go by a fingerprint of the key alone, and never by
/// the key itself; no other login has a key like theirs unless its user is
/// called `apikey`.
pub proof fn law_api_logins_go_by_a_fingerprint(login: Login, key: Seq<char>)
    ensures
        login.auth.auth_mode == Some("apikey"@) && login.auth.openai_api_key == Some(
            JsonTree::Text(key),
        ) ==> account_key(login) == "apikey::"@ + hash::fingerprint(key),
        login.auth.auth_mode == Some("apikey"@) && login.auth.openai_api_key is None
            ==> account_key(login) == "apikey::"@ + hash::fingerprint(""@),
        login.auth.auth_mode != Some("apikey"@) && login.auth.tokens is None && login.claims is None
            ==> account_key(login) == "current::workspace"@,
{
    reveal_strlit("current");
    reveal_strlit("::");
    reveal_strlit("workspace");
    reveal_strlit("current::workspace");
    assert("current"@ + "::"@ + "workspace"@ =~= "current::workspace"@);
}

/// What is known of an account's owner is what the token says, field by field,
/// and nothing without a token.
pub proof fn law_metadata_is_what_the_token_says(login: Login)
    ensures
        ({
            let (email, name, plan) = metadata_of(login);
            match login.claims {
                Some(claims) => {
                    &&& email == (if claims.email is Some { claims.email->0 } else { ""@ })
                    &&& name == (if claims.name is Some { claims.name->0 } else { ""@ })
                    &&& plan == (if claims.plan is Some { claims.plan->0 } else { ""@ })
                },
                None => email == ""@ && name == ""@ && plan == ""@,
            }
        }),
{
}

/// An auth file can be used where, and only where, it is a ChatGPT login with
/// tokens or an API key login with a text for its key.
pub proof fn law_usable_logins(path: Seq<char>, auth: AuthFacts)
    ensures
        auth_fault(path, auth) is None <==> {
            ||| auth.auth_mode == Some("chatgpt"@) && auth.tokens is Some
            ||| auth.auth_mode == Some("apikey"@) && auth.openai_api_key matches Some(
                JsonTree::Text(_),
            )
        },
        auth.auth_mode == Some("chatgpt"@) && auth.tokens is None ==> auth_fault(path, auth)
            == Some(Fault::Config("ChatGPT snapshot is missing tokens: "@ + path)),
        auth.auth_mode == Some("apikey"@) && !(auth.openai_api_key matches Some(JsonTree::Text(_)))
            ==> auth_fault(path, auth) == Some(
            Fault::Config("API key snapshot is missing OPENAI_API_KEY: "@ + path),
        ),
        auth.auth_mode != Some("chatgpt"@) && auth.auth_mode != Some("apikey"@) ==> auth_fault(
            path,
            auth,
        ) == Some(Fault::Config("Unsupported auth_mode in snapshot: "@ + path)),
{
    reveal_strlit("chatgpt");
    reveal_strlit("apikey");
    assert("chatgpt"@.len() != "apikey"@.len());
}

/// Of several texts the first that is not blank is taken, without the white
/// space around it, and nothing where all are blank.
pub proof fn law_first_filled(values: Seq<Seq<char>>, i: int)
    ensures
        0 <= i < values.len() && !text::blank(values[i]) && (forall|k: int|
            0 <= k < i ==> text::blank(#[trigger] values[k])) ==> first_filled(values)
            == text::trimmed(values[i]),
        (forall|k: int| 0 <= k < values.len() ==> text::blank(#[trigger] values[k]))
            ==> first_filled(values) == Seq::<char>::empty(),
    decreases values.len(),
{
    if values.len() > 0 {
        let rest = values.skip(1);
        law_first_filled(rest, i - 1);
        if 0 < i < values.len() {
            assert(rest[i - 1] == values[i]);
            if forall|k: int| 0 <= k < i ==> text::blank(#[trigger] values[k]) {
                assert(text::blank(values[0]));
                assert forall|k: int| 0 <= k < i - 1 implies text::blank(#[trigger] rest[k]) by {
                    assert(rest[k] == values[k + 1]);
                }
            }
        }
        if forall|k: int| 0 <= k < values.len() ==> text::blank(#[trigger] values[k]) {
            assert(text::blank(values[0]));
            assert forall|k: int| 0 <= k < rest.len() implies text::blank(#[trigger] rest[k]) by {
                assert(rest[k] == values[k + 1]);
            }
        }
    }
}

/// A masked address hides as many characters of the mailbox's name as it does
/// not show, but three at least; it shows two, or one of a name of one or two.
/// What is no address is hidden whole, and nothing stays nothing.
pub proof fn law_mask_counts_what_it_hides(name: Seq<char>, domain: Seq<char>, other: Seq<char>)
    requires
        text::parted(name + "@"@ + domain, "@"@) == Some((name, domain)),
        text::parted(other, "@"@) is None,
    ensures
        2 < name.len() < 5 ==> masked(name + "@"@ + domain) == name.take(2) + Seq::new(
            3,
            |i: int| '*',
        ) + "@"@ + domain,
        name.len() >= 5 ==> masked(name + "@"@ + domain) == name.take(2) + Seq::new(
            (name.len() - 2) as nat,
            |i: int| '*',
        ) + "@"@ + domain,
        0 < name.len() <= 2 ==> masked(name + "@"@ + domain) == name.take(1) + Seq::new(
            3,
            |i: int| '*',
        ) + "@"@ + domain,
        other.len() > 0 ==> masked(other) == "hidden"@,
        other.len() == 0 ==> masked(other) == Seq::<char>::empty(),
{
    reveal_strlit("");
    if name.len() > 2 {
        assert(text::first_chars(name, 2) =~= name.take(2));
        if name.len() >= 5 {
            assert(stars(hidden_chars(name)) =~= Seq::new((name.len() - 2) as nat, |i: int| '*'));
        } else {
            assert(stars(hidden_chars(name)) =~= Seq::new(3, |i: int| '*'));
        }
    } else if name.len() > 0 {
        assert(text::first_chars(name, 1) =~= name.take(1));
        assert(stars(hidden_chars(name)) =~= Seq::new(3, |i: int| '*'));
    }
    assert(""@ =~= Seq::<char>::empty());
}

/// A label is kept without the white space around it, and no more than its
/// first eighty characters; no label is an empty one.
pub proof fn law_label_is_kept(label: Seq<char>)
    ensures
        kept_label(Some(label)).len() <= 80,
        text::trimmed(label).len() <= 80 ==> kept_label(Some(label)) == text::trimmed(label),
        text::trimmed(label).len() > 80 ==> kept_label(Some(label)) == text::trimmed(label).take(
            80,
        ),
        kept_label(None) == Seq::<char>::empty(),
{
    reveal_strlit("");
    assert(text::trimmed(""@) =~= Seq::<char>::empty());
    if text::trimmed(label).len() > 80 {
        assert(text::trimmed(label).subrange(0, 80) =~= text::trimmed(label).take(80));
    }
}

/// A text as a file's name keeps its letters, digits, points, underscores and
/// hyphens and has an underscore for all else, up to 180 characters.
pub proof fn law_file_text_keeps_plain_characters(input: Seq<char>, i: int)
    ensures
        file_text(input).len() == if input.len() <= 180 {
            input.len()
        } else {
            180
        },
        0 <= i < file_text(input).len() ==> file_text(input)[i] == if ('a' <= input[i] && input[i]
            <= 'z') || ('A' <= input[i] && input[i] <= 'Z') || ('0' <= input[i] && input[i] <= '9')
            || input[i] == '.' || input[i] == '_' || input[i] == '-' {
            input[i]
        } else {
            '_'
        },
{
}

proof fn lemma_pieces_joined(head: Seq<char>, body: Seq<char>)
    requires
        forall|i: int| 0 <= i < head.len() ==> #[trigger] head[i] != '.',
        forall|i: int| 0 <= i < body.len() ==> #[trigger] body[i] != '.',
    ensures
        paths::pieces(head + "."@ + body, '.') == seq![head, body],
    decreases body.len(),
{
    reveal_strlit(".");
    assert("."@ =~= seq!['.']);
    let s = head + "."@ + body;
    if body.len() == 0 {
        lemma_one_piece(head);
        assert(s.drop_last() =~= head);
        assert(s.last() == '.');
        assert(body =~= Seq::<char>::empty());
        assert(paths::pieces(s, '.') =~= seq![head, body]);
    } else {
        let shorter = body.drop_last();
        assert forall|i: int| 0 <= i < shorter.len() implies #[trigger] shorter[i] != '.' by {
            assert(shorter[i] == body[i]);
        }
        lemma_pieces_joined(head, shorter);
        assert(s.drop_last() =~= head + "."@ + shorter);
        assert(s.last() == body.last());
        assert(body.last() == body[body.len() - 1]);
        assert(shorter.push(body.last()) =~= body);
        assert(paths::pieces(s, '.') =~= seq![head, body]);
    }
}

proof fn lemma_one_piece(s: Seq<char>)
    requires
        forall|i: int| 0 <= i < s.len() ==> #[trigger] s[i] != '.',
    ensures
        paths::pieces(s, '.') == seq![s],
    decreases s.len(),
{
    if s.len() == 0 {
        assert(s =~= Seq::<char>::empty());
    } else {
        let shorter = s.drop_last();
        assert forall|i: int| 0 <= i < shorter.len() implies #[trigger] shorter[i] != '.' by {
            assert(shorter[i] == s[i]);
        }
        lemma_one_piece(shorter);
        assert(s.last() == s[s.len() - 1]);
        assert(shorter.push(s.last()) =~= s);
        assert(paths::pieces(s, '.') =~= seq![s]);
    }
}

proof fn lemma_second_piece(head: Seq<char>, body: Seq<char>, rest: Seq<char>)
    requires
        forall|i: int| 0 <= i < head.len() ==> #[trigger] head[i] != '.',
        forall|i: int| 0 <= i < body.len() ==> #[trigger] body[i] != '.',
    ensures
        ({
            let parts = paths::pieces(head + "."@ + body + "."@ + rest, '.');
            parts.len() >= 3 && parts[0] == head && parts[1] == body
        }),
    decreases rest.len(),
{
    reveal_strlit(".");
    assert("."@ =~= seq!['.']);
    let s = head + "."@ + body + "."@ + rest;
    if rest.len() == 0 {
        lemma_pieces_joined(head, body);
        assert(s.drop_last() =~= head + "."@ + body);
        assert(s.last() == '.');
    } else {
        lemma_second_piece(head, body, rest.drop_last());
        assert(s.drop_last() =~= head + "."@ + body + "."@ + rest.drop_last());
    }
}

/// A token speaks of its owner between its first two points: what is read of
/// `head.body` and of `head.body.signature` is `body`, whatever the signature
/// is, and without a point there is nothing to read.
pub proof fn law_token_speaks_in_its_second_part(
    head: Seq<char>,
    body: Seq<char>,
    signature: Seq<char>,
)
    requires
        forall|i: int| 0 <= i < head.len() ==> #[trigger] head[i] != '.',
        forall|i: int| 0 <= i < body.len() ==> #[trigger] body[i] != '.',
    ensures
        token_body(head + "."@ + body + "."@ + signature) == Some(body),
        token_body(head + "."@ + body) == Some(body),
        token_body(head) is None,
{
    lemma_second_piece(head, body, signature);
    lemma_pieces_joined(head, body);
    lemma_one_piece(head);
}

/// What is known of the owner of a login stands in its `id_token`, in the
/// second part, in base64. Nothing is known without such a token.
pub proof fn law_owner_is_named_by_the_id_token(
    auth: AuthFacts,
    tokens: JsonTree,
    head: Seq<char>,
    body: Seq<char>,
    signature: Seq<char>,
)
    requires
        auth.tokens == Some(tokens),
        forall|i: int| 0 <= i < head.len() ==> #[trigger] head[i] != '.',
        forall|i: int| 0 <= i < body.len() ==> #[trigger] body[i] != '.',
    ensures
        tokens.get("id_token"@) == Some(JsonTree::Text(head + "."@ + body + "."@ + signature))
            ==> claim_bytes(auth) == base64url(body),
        tokens.get("id_token"@) == Some(JsonTree::Text(head)) ==> claim_bytes(auth) is None,
        (match tokens.get("id_token"@) {
            Some(JsonTree::Text(_)) => false,
            _ => true,
        }) ==> claim_bytes(auth) is None,
        claim_bytes(AuthFacts { tokens: None, ..auth }) is None,
{
    law_token_speaks_in_its_second_part(head, body, signature);
}

} // verus!
