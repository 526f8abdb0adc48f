//! Composition of the two notification mails. Delivery is the mail
//! collaborator's business and is fire-and-forget: these functions only
//! build the message that is handed to it.
use vstd::prelude::*;

use vstd::string::StringExecFns;

verus! {

/// A composed message, ready for the mail collaborator to deliver.
#[derive(Debug)]
pub struct MailMessage {
    pub to: String,
    pub subject: String,
    pub text: String,
}

/// The plain-text body shared by the two notification mails.
pub open spec fn mail_text(
    name: Seq<char>,
    message: Seq<char>,
    link: Seq<char>,
    app: Seq<char>,
) -> Seq<char> {
    "Hi "@ + name + ",\n"@ + message + ", Set password here: "@ + link + "\nCheers,\n"@ + app
        + " Team"@
}

/// Builds the shared body.
fn compose_text(name: &String, message: &str, link: &String, app: &String) -> (r: String)
    ensures
        r@ == mail_text(name@, message@, link@, app@),
{
    let mut t = "Hi ".to_owned();
    t.append(name.as_str());
    t.append(",\n");
    t.append(message);
    t.append(", Set password here: ");
    t.append(link.as_str());
    t.append("\nCheers,\n");
    t.append(app.as_str());
    t.append(" Team");
    t
}

/// The password-reset mail, carrying the reset link.
pub fn reset_message(app_name: &String, to_email: &String, given_name: &String, link: &String) -> (m:
    MailMessage)
    ensures
        m.to@ == to_email@,
        m.subject@ == app_name@ + " Password Reset"@,
        m.text@ == mail_text(
            given_name@,
            "You requested a password reset link."@,
            link@,
            app_name@,
        ),
{
    let mut subject = app_name.clone();
    subject.append(" Password Reset");
    MailMessage {
        to: to_email.clone(),
        subject,
        text: compose_text(given_name, "You requested a password reset link.", link, app_name),
    }
}

/// The account-activation mail sent after signup, reusing the reset path.
pub fn welcome_message(
    app_name: &String,
    to_email: &String,
    given_name: &String,
    link: &String,
) -> (m: MailMessage)
    ensures
        m.to@ == to_email@,
        m.subject@ == "Welcome to "@ + app_name@,
        m.text@ == mail_text(
            given_name@,
            "You've been invited to join our platform."@,
            link@,
            app_name@,
        ),
{
    let mut subject = "Welcome to ".to_owned();
    subject.append(app_name.as_str());
    MailMessage {
        to: to_email.clone(),
        subject,
        text: compose_text(given_name, "You've been invited to join our platform.", link, app_name),
    }
}

} // verus!
