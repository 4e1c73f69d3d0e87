//! The saved session.
//!
//! On Windows the system's data protection seals the session. Where the system
//! offers none, the seal of this module stands in for it: it marks the session
//! as sealed, so that nothing else is taken for one, but it hides nothing.
//!
//! The session lies in a sealed file. Older versions left it in a file in plain
//! text, which is read once, sealed, and removed. A driver reads both files into
//! [`SessionFiles`], and carries out the [`FileChanges`] that come back.

use vstd::prelude::*;
use vstd::slice::slice_subrange;
use vstd::slice::slice_to_vec;

verus! {

/// The mark at the beginning of sealed data: "GPWSEAL" and a zero.
pub open spec fn seal_mark() -> Seq<u8> {
    seq![0x47u8, 0x50u8, 0x57u8, 0x53u8, 0x45u8, 0x41u8, 0x4cu8, 0u8]
}

/// `plain`, sealed.
pub open spec fn sealed(plain: Seq<u8>) -> Seq<u8> {
    seal_mark() + plain
}

/// What was sealed as `cipher`; `None` where `cipher` is not sealed.
pub open spec fn unsealed(cipher: Seq<u8>) -> Option<Seq<u8>> {
    if cipher.len() >= seal_mark().len() && cipher.take(seal_mark().len() as int) == seal_mark() {
        Some(cipher.skip(seal_mark().len() as int))
    } else {
        None
    }
}

/// The mark, as bytes.
fn mark() -> (r: Vec<u8>)
    ensures
        r@ == seal_mark(),
{
    let r: Vec<u8> = vec![0x47u8, 0x50u8, 0x57u8, 0x53u8, 0x45u8, 0x41u8, 0x4cu8, 0u8];
    assert(r@ == seal_mark());
    r
}

/// Seals `plain`. This never fails.
pub fn protect(plain: &[u8]) -> (r: Result<Vec<u8>, String>)
    ensures
        r matches Ok(c) && c@ == sealed(plain@),
{
    let mut out: Vec<u8> = mark();
    out.extend_from_slice(plain);
    assert(out@ == sealed(plain@));
    Ok(out)
}

/// Opens what [`protect`] sealed; anything else is an error.
pub fn unprotect(cipher: &[u8]) -> (r: Result<Vec<u8>, String>)
    ensures
        r is Ok == unsealed(cipher@) is Some,
        r matches Ok(p) ==> unsealed(cipher@) == Some(p@),
        r matches Err(m) ==> m@ == "CryptUnprotectData falhou"@,
{
    let m: Vec<u8> = mark();
    if cipher.len() < m.len() {
        return Err("CryptUnprotectData falhou".to_owned());
    }
    let mut i: usize = 0;
    while i < m.len()
        invariant
            i <= m@.len() <= cipher@.len(),
            m@ == seal_mark(),
            cipher@.take(i as int) == m@.take(i as int),
        decreases m@.len() - i,
    {
        if cipher[i] != m[i] {
            assert(cipher@.take(m@.len() as int)[i as int] != m@[i as int]);
            return Err("CryptUnprotectData falhou".to_owned());
        }
        assert(cipher@.take(i + 1) == m@.take(i + 1));
        i += 1;
    }
    assert(m@.take(i as int) == m@);
    let plain: Vec<u8> = slice_to_vec(slice_subrange(cipher, m.len(), cipher.len()));
    assert(plain@ == cipher@.skip(m@.len() as int));
    Ok(plain)
}

/// `String::from_utf8`: the text that the bytes encode, if they are valid UTF-8.
#[verifier::external_body]
fn utf8_text(bytes: Vec<u8>) -> (r: Option<String>)
    ensures
        r is Some == vstd::utf8::valid_utf8(bytes@),
        r matches Some(s) ==> s@ == vstd::utf8::decode_utf8(bytes@),
{
    String::from_utf8(bytes).ok()
}

/// The session that the opened bytes hold, if they are text.
pub open spec fn session_in(plain: Seq<u8>) -> Option<Seq<char>> {
    if vstd::utf8::valid_utf8(plain) {
        Some(vstd::utf8::decode_utf8(plain))
    } else {
        None
    }
}

// ---------------------------------------------------------------------------
// The two files
// ---------------------------------------------------------------------------

/// What the sealed file opens to.
pub enum SealedFile {
    /// There is no such file.
    Missing,
    /// It does not open: it is damaged, or comes from another account.
    Damaged,
    /// It opens to these bytes.
    Opened(Vec<u8>),
}

/// The model of a [`SealedFile`].
#[verifier::ext_equal]
pub enum SealedView {
    Missing,
    Damaged,
    Opened(Seq<u8>),
}

impl View for SealedFile {
    type V = SealedView;

    open spec fn view(&self) -> SealedView {
        match *self {
            SealedFile::Missing => SealedView::Missing,
            SealedFile::Damaged => SealedView::Damaged,
            SealedFile::Opened(plain) => SealedView::Opened(plain@),
        }
    }
}

/// The sealed file, of which `opened` is what opening it gave; `None` where there is
/// no such file.
pub open spec fn sealed_as(opened: Option<Result<Vec<u8>, String>>) -> SealedView {
    match opened {
        None => SealedView::Missing,
        Some(Ok(plain)) => SealedView::Opened(plain@),
        Some(Err(_)) => SealedView::Damaged,
    }
}

impl SealedFile {
    /// The sealed file, of which `opened` is what opening it gave; `None` where
    /// there is no such file.
    pub fn of(opened: Option<Result<Vec<u8>, String>>) -> (r: SealedFile)
        ensures
            r@ == sealed_as(opened),
    {
        match opened {
            None => SealedFile::Missing,
            Some(Ok(plain)) => SealedFile::Opened(plain),
            Some(Err(_)) => SealedFile::Damaged,
        }
    }
}

/// The files in which a session may lie.
pub struct SessionFiles {
    pub sealed: SealedFile,
    /// The old file in plain text, where there is one.
    pub legacy: Option<Vec<u8>>,
}

/// What is to be done to the files. What is sealed is sealed and written first,
/// and nothing is removed where that fails.
pub struct FileChanges {
    /// The session to seal into the sealed file.
    pub seal: Option<String>,
    pub remove_sealed: bool,
    pub remove_legacy: bool,
}

/// The model of [`FileChanges`].
#[verifier::ext_equal]
pub struct ChangesView {
    pub seal: Option<Seq<char>>,
    pub remove_sealed: bool,
    pub remove_legacy: bool,
}

impl View for FileChanges {
    type V = ChangesView;

    open spec fn view(&self) -> ChangesView {
        ChangesView {
            seal: match self.seal {
                Some(s) => Some(s@),
                None => None,
            },
            remove_sealed: self.remove_sealed,
            remove_legacy: self.remove_legacy,
        }
    }
}

/// The files stay as they are.
pub open spec fn unchanged() -> ChangesView {
    ChangesView { seal: None, remove_sealed: false, remove_legacy: false }
}

/// A session is sealed, and an old one in plain text goes.
pub open spec fn sealing(session: Seq<char>) -> ChangesView {
    ChangesView { seal: Some(session), remove_sealed: false, remove_legacy: true }
}

/// Both files go.
pub open spec fn clearing() -> ChangesView {
    ChangesView { seal: None, remove_sealed: true, remove_legacy: true }
}

/// The session in the files, and what is to be done to them. A sealed file alone
/// counts where there is one; where it does not open, or holds no text, there is
/// no session. Without it an old session in plain text counts, and is sealed.
pub open spec fn loading(sealed: SealedView, legacy: Option<Seq<u8>>) -> (Option<Seq<char>>, ChangesView) {
    match sealed {
        SealedView::Opened(plain) => (session_in(plain), unchanged()),
        SealedView::Damaged => (None, unchanged()),
        SealedView::Missing => match legacy {
            Some(bytes) => match session_in(bytes) {
                Some(session) => (Some(session), sealing(session)),
                None => (None, unchanged()),
            },
            None => (None, unchanged()),
        },
    }
}

/// Saves a session.
pub fn save_session(session: &str) -> (r: FileChanges)
    ensures
        r@ == sealing(session@),
{
    FileChanges { seal: Some(session.to_owned()), remove_sealed: false, remove_legacy: true }
}

/// Loads the session.
pub fn load_session(files: SessionFiles) -> (r: (Option<String>, FileChanges))
    ensures
        ({
            let legacy = match files.legacy {
                Some(bytes) => Some(bytes@),
                None => None,
            };
            let session = match r.0 {
                Some(s) => Some(s@),
                None => None,
            };
            (session, r.1@) == loading(files.sealed@, legacy)
        }),
{
    match files.sealed {
        SealedFile::Opened(plain) => (
            utf8_text(plain),
            FileChanges { seal: None, remove_sealed: false, remove_legacy: false },
        ),
        SealedFile::Damaged => (None, FileChanges { seal: None, remove_sealed: false, remove_legacy: false }),
        SealedFile::Missing => {
            let session: Option<String> = match files.legacy {
                Some(bytes) => utf8_text(bytes),
                None => None,
            };
            match session {
                Some(session) => {
                    let changes: FileChanges = save_session(session.as_str());
                    (Some(session), changes)
                },
                None => (None, FileChanges { seal: None, remove_sealed: false, remove_legacy: false }),
            }
        },
    }
}

/// Forgets the session.
pub fn clear_session() -> (r: FileChanges)
    ensures
        r@ == clearing(),
{
    FileChanges { seal: None, remove_sealed: true, remove_legacy: true }
}

// ---------------------------------------------------------------------------
// Laws
// ---------------------------------------------------------------------------

/// The bytes of the two files on disk, where there are any.
#[verifier::ext_equal]
pub struct Disk {
    pub sealed: Option<Seq<u8>>,
    pub legacy: Option<Seq<u8>>,
}

/// What the sealed file on disk opens to.
pub open spec fn opened(disk: Disk) -> SealedView {
    match disk.sealed {
        None => SealedView::Missing,
        Some(cipher) => match unsealed(cipher) {
            Some(plain) => SealedView::Opened(plain),
            None => SealedView::Damaged,
        },
    }
}

/// The session that loading finds on disk.
pub open spec fn loaded(disk: Disk) -> Option<Seq<char>> {
    loading(opened(disk), disk.legacy).0
}

/// The files on disk once `changes` were carried out.
pub open spec fn changed(disk: Disk, changes: ChangesView) -> Disk {
    Disk {
        sealed: match changes.seal {
            Some(session) => Some(sealed(vstd::utf8::encode_utf8(session))),
            None => if changes.remove_sealed {
                None
            } else {
                disk.sealed
            },
        },
        legacy: if changes.remove_legacy {
            None
        } else {
            disk.legacy
        },
    }
}

/// The files on disk once the session was loaded.
pub open spec fn after_load(disk: Disk) -> Disk {
    changed(disk, loading(opened(disk), disk.legacy).1)
}

/// A saved session loads again as it was, whatever the files held before. No
/// file in plain text is left, and loading changes nothing any more.
pub proof fn lemma_saved_session_loads_again(disk: Disk, session: Seq<char>)
    ensures
        ({
            let saved = changed(disk, sealing(session));
            &&& loaded(saved) == Some(session)
            &&& saved.legacy is None
            &&& after_load(saved) == saved
        }),
{
    lemma_session_survives(session);
}

/// An old session in plain text loads, and is migrated: it is sealed, the file in
/// plain text is gone, and it loads again the next time.
pub proof fn lemma_old_session_is_migrated(disk: Disk, session: Seq<char>)
    requires
        disk.sealed is None,
        disk.legacy matches Some(bytes) && session_in(bytes) == Some(session),
    ensures
        loaded(disk) == Some(session),
        after_load(disk).sealed == Some(sealed(vstd::utf8::encode_utf8(session))),
        after_load(disk).legacy is None,
        loaded(after_load(disk)) == Some(session),
{
    lemma_saved_session_loads_again(disk, session);
}

/// After a logout there is no session and no file.
pub proof fn lemma_cleared_session_is_gone(disk: Disk)
    ensures
        ({
            let cleared = changed(disk, clearing());
            &&& loaded(cleared) is None
            &&& cleared.sealed is None
            &&& cleared.legacy is None
            &&& after_load(cleared) == cleared
        }),
{
}

/// A sealed file that does not open, or holds no text, counts as no session. It
/// stays as it is, and an old file beside it does not count.
pub proof fn lemma_damaged_session_counts_as_none(disk: Disk)
    requires
        disk.sealed matches Some(cipher) && (unsealed(cipher) matches Some(plain) ==> session_in(plain) is None),
    ensures
        loaded(disk) is None,
        after_load(disk) == disk,
{
}

/// Without files there is no session, and none appears.
pub proof fn lemma_no_files_no_session(disk: Disk)
    requires
        disk.sealed is None,
        disk.legacy is None,
    ensures
        loaded(disk) is None,
        after_load(disk) == disk,
{
}

/// What is sealed opens again as it was, and is never the plain text.
pub proof fn lemma_seal_opens_again(plain: Seq<u8>)
    ensures
        unsealed(sealed(plain)) == Some(plain),
        sealed(plain) != plain,
{
    let c = sealed(plain);
    assert(c.take(seal_mark().len() as int) == seal_mark());
    assert(c.skip(seal_mark().len() as int) == plain);
    assert(c.len() == plain.len() + seal_mark().len());
}

/// A session that is sealed and opened again comes back exactly as it was.
pub proof fn lemma_session_survives(session: Seq<char>)
    ensures
        unsealed(sealed(vstd::utf8::encode_utf8(session))) matches Some(plain) && session_in(plain) == Some(session),
{
    lemma_seal_opens_again(vstd::utf8::encode_utf8(session));
    vstd::utf8::encode_utf8_valid_utf8(session);
    vstd::utf8::encode_utf8_decode_utf8(session);
}

/// Sealed data begins with the mark, the letters GPWSEAL and a zero; nothing else
/// opens, and what opens is what follows the mark.
pub proof fn lemma_only_marked_data_opens(cipher: Seq<u8>)
    ensures
        unsealed(cipher) is Some <==> exists|plain: Seq<u8>| cipher == #[trigger] (marked() + plain),
        unsealed(cipher) matches Some(plain) ==> cipher == marked() + plain,
{
    assert(seal_mark() == marked());
    if let Some(plain) = unsealed(cipher) {
        assert(cipher == cipher.take(8) + cipher.skip(8));
    }
    if exists|plain: Seq<u8>| cipher == #[trigger] (marked() + plain) {
        assert(cipher.take(8) == marked());
    }
}

/// The mark of sealed data.
pub open spec fn marked() -> Seq<u8> {
    seq!['G' as u8, 'P' as u8, 'W' as u8, 'S' as u8, 'E' as u8, 'A' as u8, 'L' as u8, 0u8]
}

/// Bytes hold a session exactly where they are UTF-8, and then the text that they
/// encode.
pub proof fn lemma_session_is_text(plain: Seq<u8>)
    ensures
        session_in(plain) is Some <==> vstd::utf8::valid_utf8(plain),
        session_in(plain) matches Some(session) ==> session == vstd::utf8::decode_utf8(plain),
{
}

/// Loading looks at the sealed file first, and at the old file only where there is
/// no sealed one; only then does it change anything.
pub proof fn lemma_sealed_file_comes_first(plain: Seq<u8>, legacy: Option<Seq<u8>>, bytes: Seq<u8>)
    ensures
        loading(SealedView::Opened(plain), legacy) == (session_in(plain), unchanged()),
        loading(SealedView::Damaged, legacy) == (None::<Seq<char>>, unchanged()),
        loading(SealedView::Missing, None) == (None::<Seq<char>>, unchanged()),
        session_in(bytes) is None ==> loading(SealedView::Missing, Some(bytes)) == (None::<Seq<char>>, unchanged()),
        session_in(bytes) matches Some(session) ==> loading(SealedView::Missing, Some(bytes)) == (Some(session), sealing(session)),
        unchanged().seal is None && !unchanged().remove_sealed && !unchanged().remove_legacy,
        clearing().seal is None && clearing().remove_sealed && clearing().remove_legacy,
{
}

/// Saving seals the session itself, and takes the old file away.
pub proof fn lemma_saving_seals_the_session(session: Seq<char>)
    ensures
        sealing(session).seal == Some(session),
        !sealing(session).remove_sealed,
        sealing(session).remove_legacy,
{
}

/// What could be opened is kept, whatever it holds; what could not, whatever the
/// reason, counts as damaged.
pub proof fn lemma_opened_file_is_kept(plain: Vec<u8>, reason: String)
    ensures
        sealed_as(Some(Ok(plain))) == SealedView::Opened(plain@),
        sealed_as(Some(Err(reason))) is Damaged,
        sealed_as(None) is Missing,
{
}

} // verus!
