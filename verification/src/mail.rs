//! The e-mails of the login service: sender, recipient, subject and HTML body
//! of the password recovery and account verification messages. Sending them
//! (SMTP) is left to the caller.
use vstd::prelude::*;

verus! {

/// The link `url` as the `url` crate writes it back after parsing it
/// (`Url::parse`, then `Url::as_str`); `None` when it does not parse.
pub uninterp spec fn url_serialization(url: Seq<char>) -> Option<Seq<char>>;

/// `url::Url::parse` followed by `Url::as_str`: the parsed link as the `url`
/// crate serializes it (which is also how it is displayed), or `None` when the
/// link does not parse.
#[verifier::external_body]
fn parse_url(url: &str) -> (s: Option<String>)
    ensures
        s is Some <==> url_serialization(url@) is Some,
        s matches Some(t) ==> url_serialization(url@) == Some(t@),
{
    match url::Url::parse(url) {
        Ok(u) => Some(u.as_str().to_string()),
        Err(_) => None,
    }
}

/// A message ready to be sent: `From` and `To` headers, subject and HTML body.
#[derive(Debug)]
pub struct Mail {
    pub sender: String,
    pub to: String,
    pub subject: String,
    pub body: String,
}

/// `name <address>`, the form of the `From` and `To` headers.
pub open spec fn mailbox(name: Seq<char>, address: Seq<char>) -> Seq<char> {
    name + " <"@ + address + ">"@
}

/// Body of the password recovery message for `name`, linking to `link`.
pub open spec fn recovery_body(name: Seq<char>, link: Seq<char>) -> Seq<char> {
    "<p>Hola "@ + name
        + ",</p><p>Por favor, haz clic en el siguiente enlace para verificar tu cuenta:</p><p><a href='"@
        + link
        + "' style='padding: 10px 20px; background-color: #4CAF50; color: white; text-decoration: none; border-radius: 5px;'>Restablecer contraseña</a></p><p>Si el botón no funciona, copia y pega esto en tu navegador: "@
        + link
        + "</p>\n             <br><p><strong>En caso de que no lo hayas solicitado ignora este mensaje</strong></p>"@
}

/// Body of the account verification message for `name`, linking to `link`.
pub open spec fn verification_body(name: Seq<char>, link: Seq<char>) -> Seq<char> {
    "<p>Hola "@ + name
        + ",</p><p>Gracias por registrarte. Por favor, verifica tu cuenta dando clic en el siguiente enlace:</p><p><a href='"@
        + link
        + "' style='padding: 10px 20px; background-color: #00ffcc; color: black; text-decoration: none; border-radius: 5px;'>Verificar Cuenta</a></p><p>Si el botón no funciona, copia y pega esto en tu navegador: "@
        + link
        + "</p>\n             <br><p><strong>En caso de que no te hayas registrado, ignora este mensaje.</strong></p>"@
}

/// `a + b + c + d + e + f + g` as a new string.
fn concat7(a: &str, b: &str, c: &str, d: &str, e: &str, f: &str, g: &str) -> (s: String)
    ensures
        s@ == a@ + b@ + c@ + d@ + e@ + f@ + g@,
{
    let mut s = String::new();
    s.append(a);
    s.append(b);
    s.append(c);
    s.append(d);
    s.append(e);
    s.append(f);
    s.append(g);
    proof {
        assert(s@ =~= a@ + b@ + c@ + d@ + e@ + f@ + g@);
    }
    s
}

/// `name <address>` as a new string.
fn mailbox_of(name: &str, address: &str) -> (s: String)
    ensures
        s@ == mailbox(name@, address@),
{
    let mut s = String::new();
    s.append(name);
    s.append(" <");
    s.append(address);
    s.append(">");
    proof {
        assert(s@ =~= mailbox(name@, address@));
    }
    s
}

/// The password recovery message from `from` to `name <email>` with the
/// recovery link `url`; `None` when the link does not parse.
pub fn recovery_mail(from: &str, email: &str, name: &str, url: &str) -> (m: Option<Mail>)
    ensures
        m is Some <==> url_serialization(url@) is Some,
        m matches Some(mail) ==> {
            &&& mail.sender@ == mailbox("Example API of login and restore"@, from@)
            &&& mail.to@ == mailbox(name@, email@)
            &&& mail.subject@ == "Recuperación de contraseña"@
            &&& mail.body@ == recovery_body(name@, url_serialization(url@).unwrap())
        },
{
    let link = match parse_url(url) {
        Some(l) => l,
        None => return None,
    };
    let body = concat7(
        "<p>Hola ",
        name,
        ",</p><p>Por favor, haz clic en el siguiente enlace para verificar tu cuenta:</p><p><a href='",
        link.as_str(),
        "' style='padding: 10px 20px; background-color: #4CAF50; color: white; text-decoration: none; border-radius: 5px;'>Restablecer contraseña</a></p><p>Si el botón no funciona, copia y pega esto en tu navegador: ",
        link.as_str(),
        "</p>\n             <br><p><strong>En caso de que no lo hayas solicitado ignora este mensaje</strong></p>",
    );
    Some(Mail {
        sender: mailbox_of("Example API of login and restore", from),
        to: mailbox_of(name, email),
        subject: "Recuperación de contraseña".to_string(),
        body,
    })
}

/// The account verification message from `from` to `name <email>` with the
/// verification link `url`; `None` when the link does not parse.
pub fn verification_mail(from: &str, email: &str, name: &str, url: &str) -> (m: Option<Mail>)
    ensures
        m is Some <==> url_serialization(url@) is Some,
        m matches Some(mail) ==> {
            &&& mail.sender@ == mailbox("\"SYS://SECURE\""@, from@)
            &&& mail.to@ == mailbox(name@, email@)
            &&& mail.subject@ == "Verifica tu cuenta en SYS://SECURE"@
            &&& mail.body@ == verification_body(name@, url_serialization(url@).unwrap())
        },
{
    let link = match parse_url(url) {
        Some(l) => l,
        None => return None,
    };
    let body = concat7(
        "<p>Hola ",
        name,
        ",</p><p>Gracias por registrarte. Por favor, verifica tu cuenta dando clic en el siguiente enlace:</p><p><a href='",
        link.as_str(),
        "' style='padding: 10px 20px; background-color: #00ffcc; color: black; text-decoration: none; border-radius: 5px;'>Verificar Cuenta</a></p><p>Si el botón no funciona, copia y pega esto en tu navegador: ",
        link.as_str(),
        "</p>\n             <br><p><strong>En caso de que no te hayas registrado, ignora este mensaje.</strong></p>",
    );
    Some(Mail {
        sender: mailbox_of("\"SYS://SECURE\"", from),
        to: mailbox_of(name, email),
        subject: "Verifica tu cuenta en SYS://SECURE".to_string(),
        body,
    })
}

} // verus!
