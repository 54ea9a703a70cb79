use cryptolab::mail::{recovery_mail, verification_mail};

#[test]
fn recovery_mail_fills_template() {
    let url = "http://localhost:5500/frontend/gui/html/restore.html?token=abc";
    let mail = recovery_mail("no-reply@x.org", "ana@example.com", "Ana", url).expect("valid link");
    assert_eq!(mail.sender, "Example API of login and restore <no-reply@x.org>");
    assert_eq!(mail.to, "Ana <ana@example.com>");
    assert_eq!(mail.subject, "Recuperación de contraseña");
    let expected = format!("<p>Hola {},</p>\
             <p>Por favor, haz clic en el siguiente enlace para verificar tu cuenta:</p>\
             <p><a href='{}' style='padding: 10px 20px; background-color: #4CAF50; color: white; text-decoration: none; border-radius: 5px;'>Restablecer contraseña</a></p>\
             <p>Si el botón no funciona, copia y pega esto en tu navegador: {}</p>
             <br><p><strong>En caso de que no lo hayas solicitado ignora este mensaje</strong></p>", "Ana", url, url);
    assert_eq!(mail.body, expected);
}

#[test]
fn verification_mail_fills_template() {
    let url = "http://localhost:5500/frontend/gui/html/verify.html?token=t.k.n";
    let mail = verification_mail("no-reply@x.org", "bo@example.com", "Bo", url).expect("valid link");
    assert_eq!(mail.sender, "\"SYS://SECURE\" <no-reply@x.org>");
    assert_eq!(mail.to, "Bo <bo@example.com>");
    assert_eq!(mail.subject, "Verifica tu cuenta en SYS://SECURE");
    let expected = format!("<p>Hola {},</p>\
             <p>Gracias por registrarte. Por favor, verifica tu cuenta dando clic en el siguiente enlace:</p>\
             <p><a href='{}' style='padding: 10px 20px; background-color: #00ffcc; color: black; text-decoration: none; border-radius: 5px;'>Verificar Cuenta</a></p>\
             <p>Si el botón no funciona, copia y pega esto en tu navegador: {}</p>
             <br><p><strong>En caso de que no te hayas registrado, ignora este mensaje.</strong></p>", "Bo", url, url);
    assert_eq!(mail.body, expected);
}

#[test]
fn mail_link_is_normalized_by_the_parser() {
    let mail = verification_mail("f@x.org", "a@b.c", "A", "HTTP://Example.COM").expect("valid link");
    assert!(mail.body.contains("href='http://example.com/'"));
    assert!(!mail.body.contains("HTTP://Example.COM"));
}

#[test]
fn mail_refuses_unparsable_link() {
    assert!(recovery_mail("f@x.org", "a@b.c", "A", "not a url").is_none());
    assert!(verification_mail("f@x.org", "a@b.c", "A", "/relative/path").is_none());
}
