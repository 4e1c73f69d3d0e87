use gpw_uploader::commands::{ping, profile_of, profile_reply};
use gpw_uploader::control::reply_body;
use gpw_uploader::crypt::{
    clear_session, load_session, protect, save_session, unprotect, FileChanges, SealedFile, SessionFiles,
};

/// The session has to come back exactly as it was, or the producer is logged out
/// at every start.
#[test]
fn sessao_sobrevive_ao_ciclo_de_cifra() {
    let sessao = r#"{"accessToken":"eyJhbGciOi.abc","refreshToken":"r-123","expiresAt":1799999999,"email":"a@b.com"}"#;
    let selado = protect(sessao.as_bytes()).expect("cifrar");
    assert_ne!(selado, sessao.as_bytes(), "o conteudo tem de sair diferente do texto simples");
    let aberto = unprotect(&selado).expect("decifrar");
    assert_eq!(String::from_utf8(aberto).unwrap(), sessao);
}

/// A damaged file must not open: the producer is asked to log in again.
#[test]
fn lixo_nao_decifra() {
    assert!(unprotect(b"nao sou um blob do DPAPI").is_err());
}

#[test]
fn what_is_not_sealed_is_refused_with_a_message() {
    assert_eq!(unprotect(b"").unwrap_err(), "CryptUnprotectData falhou");
    assert_eq!(unprotect(b"GPWSEAL").unwrap_err(), "CryptUnprotectData falhou");
    assert_eq!(unprotect(b"GPWSEAL\0").unwrap(), b"");
}

/// The bytes of the sealed and of the old file.
#[derive(Clone, Debug, PartialEq)]
struct Disk {
    sealed: Option<Vec<u8>>,
    legacy: Option<Vec<u8>>,
}

fn apply(disk: &Disk, changes: FileChanges) -> Disk {
    let mut next = disk.clone();
    if let Some(session) = changes.seal {
        next.sealed = Some(protect(session.as_bytes()).unwrap());
    }
    if changes.remove_sealed {
        next.sealed = None;
    }
    if changes.remove_legacy {
        next.legacy = None;
    }
    next
}

fn load(disk: &Disk) -> (Option<String>, Disk) {
    let sealed = SealedFile::of(disk.sealed.as_ref().map(|bytes| unprotect(bytes)));
    let (session, changes) = load_session(SessionFiles { sealed, legacy: disk.legacy.clone() });
    (session, apply(disk, changes))
}

#[test]
fn saved_session_loads_again() {
    for disk in [
        Disk { sealed: None, legacy: None },
        Disk { sealed: Some(b"garbage".to_vec()), legacy: Some(b"old".to_vec()) },
    ] {
        let saved = apply(&disk, save_session("sessão"));
        assert_eq!(saved.legacy, None);
        assert_eq!(load(&saved), (Some("sessão".to_string()), saved.clone()));
    }
}

#[test]
fn old_plain_session_is_migrated() {
    let disk = Disk { sealed: None, legacy: Some("velha".as_bytes().to_vec()) };
    let (session, after) = load(&disk);
    assert_eq!(session.as_deref(), Some("velha"));
    assert_eq!(after, Disk { sealed: Some(protect(b"velha").unwrap()), legacy: None });
    assert_eq!(load(&after), (Some("velha".to_string()), after.clone()));
}

#[test]
fn cleared_session_is_gone() {
    let disk = Disk { sealed: Some(protect(b"s").unwrap()), legacy: Some(b"old".to_vec()) };
    let cleared = apply(&disk, clear_session());
    assert_eq!(cleared, Disk { sealed: None, legacy: None });
    assert_eq!(load(&cleared), (None, cleared.clone()));
}

#[test]
fn damaged_session_counts_as_none() {
    for sealed in [b"garbage".to_vec(), protect(&[0xff, 0xfe]).unwrap()] {
        let disk = Disk { sealed: Some(sealed), legacy: Some(b"old".to_vec()) };
        assert_eq!(load(&disk), (None, disk.clone()));
    }
    // An old file that is no text.
    let disk = Disk { sealed: None, legacy: Some(vec![0xff]) };
    assert_eq!(load(&disk), (None, disk.clone()));
}

#[test]
fn sealed_session_wins_over_the_old_file() {
    let disk = Disk { sealed: Some(protect(b"new").unwrap()), legacy: Some(b"old".to_vec()) };
    assert_eq!(load(&disk), (Some("new".to_string()), disk.clone()));
}

#[test]
fn health_check_answers() {
    let r = ping("3.11.1");
    assert!(r.ok);
    assert_eq!(r.message, "GPW Uploader backend ready");
    assert_eq!(r.version, "3.11.1");
}

#[test]
fn profile_is_read_out_of_the_reply() {
    let v = profile_reply(200, br#"{"profile":{"name":"Ana"}}"#).unwrap();
    assert_eq!(v.get("name").and_then(|n| n.as_str()), Some("Ana"));
    assert!(profile_reply(204, b"{}").unwrap().is_null());
    assert!(profile_reply(200, b"[1, 2]").unwrap().is_null());
    assert!(profile_of(&reply_body(b"not json")).is_null());
}

#[test]
fn failed_profile_says_why() {
    assert_eq!(profile_reply(401, b"{}").unwrap_err(), "Perfil indisponível (HTTP 401)");
    assert_eq!(profile_reply(302, b"{}").unwrap_err(), "Perfil indisponível (HTTP 302)");
    // The words are those of the decoder.
    let cause = serde_json::from_slice::<serde_json::Value>(b"<html>").unwrap_err().to_string();
    assert!(!cause.is_empty());
    assert_eq!(profile_reply(200, b"<html>").unwrap_err(), format!("Resposta de perfil inválida: {}", cause));
}
