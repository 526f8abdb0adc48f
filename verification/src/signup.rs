//! Account creation, and the activation mail it triggers. The activation
//! claim reuses the reset-claim shape and mail path.
use vstd::prelude::*;

use crate::auth::argon_verifies;
use crate::auth::hash_password;
use crate::claims::{reset_payload, reset_payload_bytes, ResetClaim};
use crate::error::Error;
use crate::flows::{base_url_ok, email_ok, is_valid_email, reset_link, reset_link_of, RESET_SECS};
use crate::mail::{mail_text, welcome_message, MailMessage};
use crate::signer::{ed_key_ok, ed_pub_of, SigningKey};
use crate::store::{has_email, UserModel, UserStore};
use crate::token::{sign_payload, signed_token, token_accepted};
use vstd::string::StrSliceExecFns;

verus! {

/// What a signup request carries.
pub struct Params {
    pub email: String,
    pub password: String,
    pub given_name: String,
    pub surname: String,
}

/// Signup inputs the boundary accepts: a well-formed email and a password
/// of at least eight chars. The name fields are free-form.
pub open spec fn signup_inputs_ok(email: Seq<char>, password: Seq<char>) -> bool {
    email_ok(email) && password.len() >= 8
}

/// Creates an account with a hashed password and composes the activation
/// mail. A taken email is rejected before anything is stored.
pub fn signup(
    store: &mut UserStore,
    key: &SigningKey,
    app_name: &String,
    base_url: &String,
    params: Params,
    now: u64,
) -> (r: Result<(u64, MailMessage), Error>)
    requires
        old(store).inv(),
        now + RESET_SECS <= u64::MAX,
    ensures
        final(store).inv(),
        !signup_inputs_ok(params.email@, params.password@) ==> (r matches Err(e)
            && e matches Error::BadRequest(_)) && final(store)@ == old(store)@,
        signup_inputs_ok(params.email@, params.password@) && has_email(old(store)@, params.email@)
            ==> (r matches Err(e) && e matches Error::BadRequest(m) && m@ == "Email is taken"@)
            && final(store)@ == old(store)@,
        signup_inputs_ok(params.email@, params.password@) && !has_email(
            old(store)@,
            params.email@,
        ) ==> (match r {
            Ok(out) => exists|h: Seq<char>|
                #![trigger argon_verifies(params.password@, h)]
                {
                    let p = reset_payload(out.0, params.email@, (now + RESET_SECS) as u64);
                    let t = signed_token(p, key.pem@);
                    &&& argon_verifies(params.password@, h)
                    &&& !crate::store::has_user_id(old(store)@, out.0)
                    &&& final(store)@ == old(store)@.push(
                        UserModel {
                            id: out.0,
                            email: params.email@,
                            password: h,
                            given_name: params.given_name@,
                            surname: params.surname@,
                            created_at: now,
                            updated_at: now,
                        },
                    )
                    &&& base_url_ok(base_url@)
                    &&& token_accepted(t, p, ed_pub_of(key.pem@))
                    &&& out.1.to@ == params.email@
                    &&& out.1.subject@ == "Welcome to "@ + app_name@
                    &&& out.1.text@ == mail_text(
                        params.given_name@,
                        "You've been invited to join our platform."@,
                        reset_link_of(base_url@, t),
                        app_name@,
                    )
                },
            Err(e) => e matches Error::Internal(_) && (final(store)@ == old(store)@ || (!(
            ed_key_ok(key.pem@) && base_url_ok(base_url@)) && exists|
                id: u64,
                h: Seq<char>,
            |
                #![trigger argon_verifies(params.password@, h), crate::store::has_user_id(old(store)@, id)]
                argon_verifies(params.password@, h) && !crate::store::has_user_id(old(store)@, id)
                    && final(store)@ == old(store)@.push(
                    UserModel {
                        id: id,
                        email: params.email@,
                        password: h,
                        given_name: params.given_name@,
                        surname: params.surname@,
                        created_at: now,
                        updated_at: now,
                    },
                ))),
        }),
{
    if !is_valid_email(&params.email) || params.password.as_str().unicode_len() < 8 {
        return Err(Error::BadRequest("invalid signup parameters".to_owned()));
    }
    match store.find_by_email(&params.email) {
        Some(_) => {
            return Err(Error::BadRequest("Email is taken".to_owned()));
        },
        None => {},
    }
    let hash = match hash_password(params.password.as_str()) {
        Ok(h) => h,
        Err(e) => {
            return Err(e);
        },
    };
    let ghost hg = hash@;
    let email_for_claim = params.email.clone();
    let given_for_mail = params.given_name.clone();
    let id = match store.insert(
        params.email,
        hash,
        params.given_name,
        params.surname,
        now,
    ) {
        Ok(id) => id,
        Err(e) => {
            return Err(e);
        },
    };
    let claim = ResetClaim { user_id: id, email: email_for_claim.clone(), exp: now + RESET_SECS };
    let payload = reset_payload_bytes(&claim);
    let token = match sign_payload(&payload, key) {
        Some(t) => t,
        None => {
            return Err(Error::Internal("token signing failed".to_owned()));
        },
    };
    let link = match reset_link(base_url.as_str(), token.as_str()) {
        Some(l) => l,
        None => {
            return Err(Error::Internal("activation link could not be built".to_owned()));
        },
    };
    let m = welcome_message(app_name, &email_for_claim, &given_for_mail, &link);
    Ok((id, m))
}

} // verus!
