//! The keystore: opaque blobs under labels, and a gate on a live human presence.
//!
//! The default store is a file that holds each blob in base64. A store in memory
//! serves tests; the opened material of a wrapped file is a read-only store.
use crate::bytes;
use crate::encoding;
use crate::path;
use crate::secrets::Token;
use crate::shelf;
use crate::shelf::Shelf;
use crate::text;
use vstd::prelude::*;
use vstd::string::*;
use zeroize::Zeroize;

pub mod host;

pub use host::{
    file_keystore_path, file_keystore_residual, for_host, legacy_keychain_notice, presence_plan,
    verify_host_presence, PresencePlan,
};

verus! {

/// Why a keystore did not do what was asked.
#[derive(Debug, Clone, PartialEq, Eq)]
pub enum KeystoreError {
    /// The presence prompt was declined.
    Declined,
    /// A backend call failed.
    Backend(String),
    /// A hardware path that refuses rather than pretending to work.
    NeedsVerification(&'static str),
    /// The file is wrapped, so only the running app can open it.
    Sealed,
}

/// An error as plain values.
#[verifier::ext_equal]
pub enum KeystoreErrorView {
    Declined,
    Backend(Seq<char>),
    NeedsVerification(Seq<char>),
    Sealed,
}

impl View for KeystoreError {
    type V = KeystoreErrorView;

    open spec fn view(&self) -> KeystoreErrorView {
        match self {
            KeystoreError::Declined => KeystoreErrorView::Declined,
            KeystoreError::Backend(e) => KeystoreErrorView::Backend(e@),
            KeystoreError::NeedsVerification(w) => KeystoreErrorView::NeedsVerification(w@),
            KeystoreError::Sealed => KeystoreErrorView::Sealed,
        }
    }
}

/// Said of a store that only the app can open. It names the app and says that the
/// pairing is fine.
pub const SEALED_MESSAGE: &'static str =
    "the keystore is sealed to the Sigil app's Secure Enclave, so this command cannot read it directly. Make sure the Sigil app is running and try again. Your pairing is intact: this is not a re-pair situation";

impl KeystoreErrorView {
    /// What is said of it.
    pub open spec fn text(self) -> Seq<char> {
        match self {
            KeystoreErrorView::Declined => "biometric presence check declined"@,
            KeystoreErrorView::Backend(e) => "keystore backend: "@ + e,
            KeystoreErrorView::NeedsVerification(w) =>
            "secure enclave path not yet verified on hardware: "@ + w,
            KeystoreErrorView::Sealed => SEALED_MESSAGE@,
        }
    }
}

impl KeystoreError {
    /// What is said of it.
    pub fn message(&self) -> (r: String)
        ensures
            r@ == self@.text(),
    {
        let mut s = String::new();
        match self {
            KeystoreError::Declined => {
                s.append("biometric presence check declined");
            },
            KeystoreError::Backend(e) => {
                s.append("keystore backend: ");
                s.append(e.as_str());
            },
            KeystoreError::NeedsVerification(w) => {
                s.append("secure enclave path not yet verified on hardware: ");
                s.append(w);
            },
            KeystoreError::Sealed => {
                s.append(SEALED_MESSAGE);
            },
        }
        assert(s@ =~= self@.text());
        s
    }
}

/// A backend error with this text.
pub open spec fn is_backend<A>(r: Result<A, KeystoreError>, why: Seq<char>) -> bool {
    r matches Err(e) && e@ == KeystoreErrorView::Backend(why)
}

/// Storage of opaque blobs, and a presence gate.
pub trait Keystore {
    /// Which backend this is: `file`, `memory` or `keychain`.
    fn backend(&self) -> &'static str;

    /// Persist a blob under `label`, in place of what was there.
    fn store_blob(&mut self, label: &str, data: &[u8]) -> Result<(), KeystoreError>;

    /// The blob under `label`, or `None` where there is none.
    fn load_blob(&self, label: &str) -> Result<Option<Vec<u8>>, KeystoreError>;

    /// Remove the blob under `label`. Absent is no error.
    fn delete_blob(&mut self, label: &str) -> Result<(), KeystoreError>;

    /// Whether [`Keystore::verify_presence`] is gated by real hardware.
    fn is_biometric(&self) -> (r: bool)
        default_ensures
            !r,
    {
        false
    }

    /// Prove a live human presence. Fails closed: a store that says it is
    /// biometric has to bring its own check.
    fn verify_presence(&self, reason: &str) -> (r: Result<(), KeystoreError>)
        default_ensures
            is_backend(r, "this keystore has no hardware user-presence check"@),
    {
        Err(KeystoreError::Backend("this keystore has no hardware user-presence check".to_owned()))
    }
}

/// A store in memory: nothing survives a restart.
pub struct MemoryKeystore {
    blobs: Shelf<Vec<u8>>,
}

impl View for MemoryKeystore {
    type V = Map<Seq<char>, Seq<u8>>;

    closed spec fn view(&self) -> Map<Seq<char>, Seq<u8>> {
        self.blobs@.map_values(|v: Vec<u8>| v@)
    }
}

impl MemoryKeystore {
    /// An empty store.
    pub fn new() -> (r: MemoryKeystore)
        ensures
            r@ == Map::<Seq<char>, Seq<u8>>::empty(),
    {
        let r = MemoryKeystore { blobs: Shelf::new() };
        assert(r@ =~= Map::<Seq<char>, Seq<u8>>::empty());
        r
    }
}

impl Keystore for MemoryKeystore {
    fn backend(&self) -> (r: &'static str)
        ensures
            r@ == "memory"@,
    {
        "memory"
    }

    fn store_blob(&mut self, label: &str, data: &[u8]) -> (r: Result<(), KeystoreError>)
        ensures
            r is Ok,
            final(self)@ == old(self)@.insert(label@, data@),
    {
        self.blobs.put(label, bytes::copy(data));
        assert(self@ =~= old(self)@.insert(label@, data@));
        Ok(())
    }

    fn load_blob(&self, label: &str) -> (r: Result<Option<Vec<u8>>, KeystoreError>)
        ensures
            match r {
                Ok(Some(v)) => self@.contains_key(label@) && v@ == self@[label@],
                Ok(None) => !self@.contains_key(label@),
                Err(_) => false,
            },
    {
        match self.blobs.get(label) {
            Some(v) => Ok(Some(bytes::copy(v.as_slice()))),
            None => Ok(None),
        }
    }

    fn delete_blob(&mut self, label: &str) -> (r: Result<(), KeystoreError>)
        ensures
            r is Ok,
            final(self)@ == old(self)@.remove(label@),
    {
        self.blobs.remove(label);
        assert(self@ =~= old(self)@.remove(label@));
        Ok(())
    }
}

/// The contents of a plaintext keystore file: base64 texts under labels.
pub struct FileState {
    blobs: Shelf<String>,
}

impl View for FileState {
    type V = Map<Seq<char>, Seq<char>>;

    closed spec fn view(&self) -> Map<Seq<char>, Seq<char>> {
        self.blobs@.map_values(|v: String| v@)
    }
}

/// The texts of a list of labelled texts, the last where a label occurs twice.
pub open spec fn file_entries(entries: Seq<(String, String)>) -> Map<Seq<char>, Seq<char>> {
    shelf::gathered(entries).map_values(|v: String| v@)
}

/// What loading from a label that holds this text gives.
pub open spec fn loaded(text: Option<Seq<char>>) -> Result<Option<Seq<u8>>, KeystoreErrorView> {
    match text {
        None => Ok(None),
        Some(t) => match encoding::base64_read(t) {
            Ok(b) => Ok(Some(b)),
            Err(e) => Err(KeystoreErrorView::Backend(e)),
        },
    }
}

/// A loaded blob as plain values.
pub open spec fn load_view(r: Result<Option<Vec<u8>>, KeystoreError>) -> Result<
    Option<Seq<u8>>,
    KeystoreErrorView,
> {
    match r {
        Ok(None) => Ok(None),
        Ok(Some(v)) => Ok(Some(v@)),
        Err(e) => Err(e@),
    }
}

/// What a map holds under a key.
pub open spec fn under<V>(m: Map<Seq<char>, V>, k: Seq<char>) -> Option<V> {
    if m.contains_key(k) {
        Some(m[k])
    } else {
        None
    }
}

impl FileState {
    /// A file with no blobs in it.
    pub fn empty() -> (r: FileState)
        ensures
            r@ == Map::<Seq<char>, Seq<char>>::empty(),
    {
        let r = FileState { blobs: Shelf::new() };
        assert(r@ =~= Map::<Seq<char>, Seq<char>>::empty());
        r
    }

    /// The contents that these entries write down.
    pub fn from_entries(entries: Vec<(String, String)>) -> (r: FileState)
        ensures
            r@ == file_entries(entries@),
    {
        let r = FileState { blobs: Shelf::from_entries(entries) };
        assert(r@ =~= file_entries(entries@));
        r
    }

    /// The entries, one per label.
    pub fn into_entries(self) -> (r: Vec<(String, String)>)
        ensures
            shelf::labels(r@).no_duplicates(),
            shelf::shelved(r@).map_values(|v: String| v@) == self@,
    {
        self.blobs.into_entries()
    }

    /// Put a blob under `label`, in base64.
    pub fn store(&mut self, label: &str, data: &[u8])
        requires
            4 * (data@.len() / 3 + 1) <= isize::MAX,
        ensures
            final(self)@ == old(self)@.insert(label@, encoding::base64_of(data@)),
            loaded(under(final(self)@, label@)) == Ok::<Option<Seq<u8>>, KeystoreErrorView>(
                Some(data@),
            ),
    {
        let b64 = encoding::base64_text(data);
        self.blobs.put(label, b64);
        assert(self@ =~= old(self)@.insert(label@, encoding::base64_of(data@)));
    }

    /// The blob under `label`.
    pub fn load(&self, label: &str) -> (r: Result<Option<Vec<u8>>, KeystoreError>)
        ensures
            load_view(r) == loaded(under(self@, label@)),
    {
        match self.blobs.get(label) {
            None => Ok(None),
            Some(b64) => match encoding::base64_bytes(b64.as_str()) {
                Ok(b) => Ok(Some(b)),
                Err(e) => Err(KeystoreError::Backend(e)),
            },
        }
    }

    /// Take away the blob under `label`. Absent is fine.
    pub fn delete(&mut self, label: &str)
        ensures
            final(self)@ == old(self)@.remove(label@),
    {
        self.blobs.remove(label);
        assert(self@ =~= old(self)@.remove(label@));
    }
}

/// A label gives back what was stored under it last, nothing once it was deleted,
/// and neither a store nor a deletion touches another label.
pub proof fn a_label_holds_what_it_was_given<V>(
    m: Map<Seq<char>, V>,
    label: Seq<char>,
    other: Seq<char>,
    v: V,
)
    ensures
        under(m.insert(label, v), label) == Some(v),
        under(m.remove(label), label) is None,
        other != label ==> under(m.insert(label, v), other) == under(m, other),
        other != label ==> under(m.remove(label), other) == under(m, other),
{
}

/// Entries that a file was written from read back as the same contents, so a
/// second process sees what the first one stored.
pub proof fn a_written_file_reads_back(entries: Seq<(String, String)>)
    requires
        shelf::labels(entries).no_duplicates(),
    ensures
        file_entries(entries) == shelf::shelved(entries).map_values(|v: String| v@),
{
    shelf::entries_gather_back(entries);
}

/// A store that persists to a file.
pub struct FileKeystore {
    path: Vec<u8>,
}

/// What reading the file came to.
pub enum FileRead {
    /// Its bytes, and what they parse to.
    Bytes { body: Vec<u8>, state: Result<FileState, String> },
    /// There is no such file.
    Missing,
    /// It could not be read.
    Failed(String),
}

/// Whether the body of a file says that it is wrapped: a version of two or more.
pub open spec fn sealed_body(body: Seq<u8>) -> bool {
    encoding::json_number_at(body, "v"@) matches Some(v) && v >= 2
}

/// Whether these bytes are a wrapped store rather than a plaintext one.
pub fn is_sealed_body(body: &[u8]) -> (r: bool)
    ensures
        r == sealed_body(body@),
{
    match encoding::json_number_field(body, "v") {
        Some(v) => v >= 2,
        None => false,
    }
}

/// The contents of a file, by what reading it came to.
pub open spec fn contents(read: FileRead) -> Result<Map<Seq<char>, Seq<char>>, KeystoreErrorView> {
    match read {
        FileRead::Bytes { body, state } => if sealed_body(body@) {
            Err(KeystoreErrorView::Sealed)
        } else {
            match state {
                Ok(s) => Ok(s@),
                Err(e) => Err(KeystoreErrorView::Backend(e@)),
            }
        },
        FileRead::Missing => Ok(Map::empty()),
        FileRead::Failed(e) => Err(KeystoreErrorView::Backend(e@)),
    }
}

impl FileKeystore {
    /// A store in the file at `path`.
    pub fn new(path: Vec<u8>) -> (r: FileKeystore)
        ensures
            r.at() == path@,
    {
        FileKeystore { path }
    }

    /// Where the store keeps its file.
    pub closed spec fn at(&self) -> Seq<u8> {
        self.path@
    }

    /// Where the store keeps its file.
    pub fn path(&self) -> (r: &[u8])
        ensures
            r@ == self.at(),
    {
        self.path.as_slice()
    }

    /// Which backend this is.
    pub fn backend(&self) -> (r: &'static str)
        ensures
            r@ == "file"@,
    {
        "file"
    }

    /// The contents of the file, given what reading it came to. A wrapped file is
    /// refused by name, rather than read as an empty store.
    pub fn read(read: FileRead) -> (r: Result<FileState, KeystoreError>)
        ensures
            match r {
                Ok(s) => contents(read) == Ok::<Map<Seq<char>, Seq<char>>, KeystoreErrorView>(s@),
                Err(e) => contents(read) == Err::<Map<Seq<char>, Seq<char>>, KeystoreErrorView>(
                    e@,
                ),
            },
    {
        match read {
            FileRead::Bytes { body, state } => {
                if is_sealed_body(body.as_slice()) {
                    return Err(KeystoreError::Sealed);
                }
                match state {
                    Ok(s) => Ok(s),
                    Err(e) => Err(KeystoreError::Backend(e)),
                }
            },
            FileRead::Missing => Ok(FileState::empty()),
            FileRead::Failed(e) => Err(KeystoreError::Backend(e)),
        }
    }
}

/// `zeroize::Zeroize` for `String`: the text is overwritten and left empty.
#[verifier::external_body]
fn wipe(s: &mut String)
    ensures
        final(s)@ == Seq::<char>::empty(),
{
    s.zeroize()
}

/// Wipe the texts of entries that are of no more use.
pub(crate) fn wipe_entries(entries: Vec<(String, String)>) {
    let mut entries = entries;
    while entries.len() > 0
        decreases entries@.len(),
    {
        if let Some(entry) = entries.pop() {
            let mut b64 = entry.1;
            wipe(&mut b64);
        }
    }
}

/// The opened material of a wrapped keystore: held in memory, and read-only. The
/// daemon cannot wrap it again, and a plaintext write beside a wrapped file would
/// undo the wrapping, so every write is refused.
pub struct RamKeystore {
    blobs: Shelf<Token>,
}

impl View for RamKeystore {
    type V = Map<Seq<char>, Seq<u8>>;

    closed spec fn view(&self) -> Map<Seq<char>, Seq<u8>> {
        self.blobs@.map_values(|v: Token| v@)
    }
}

/// What opened material holds, or why it is refused: the entries decode one by
/// one, and the first that does not is the reason.
pub open spec fn opened(entries: Seq<(String, String)>) -> Result<
    Map<Seq<char>, Seq<u8>>,
    Seq<char>,
>
    decreases entries.len(),
{
    if entries.len() == 0 {
        Ok(Map::empty())
    } else {
        match opened(entries.drop_last()) {
            Err(e) => Err(e),
            Ok(m) => match encoding::base64_read(entries.last().1@) {
                Err(e) => Err(e),
                Ok(b) => Ok(m.insert(entries.last().0@, b)),
            },
        }
    }
}

/// Once an entry is refused, the entries after it change nothing.
proof fn a_refusal_stays(entries: Seq<(String, String)>, n: int, why: Seq<char>)
    requires
        0 <= n <= entries.len(),
        opened(entries.take(n)) == Err::<Map<Seq<char>, Seq<u8>>, Seq<char>>(why),
    ensures
        opened(entries) == Err::<Map<Seq<char>, Seq<u8>>, Seq<char>>(why),
    decreases entries.len() - n,
{
    if n == entries.len() {
        assert(entries.take(n) =~= entries);
    } else {
        assert(entries.take(n + 1).drop_last() =~= entries.take(n));
        a_refusal_stays(entries, n + 1, why);
    }
}

impl RamKeystore {
    /// A read-only store over opened material. `parsed` is the entries that the
    /// material's JSON holds, in the form a plaintext file has, or why it is no
    /// such JSON. The base64 texts are wiped once they are of no more use.
    pub fn from_material(parsed: Result<Vec<(String, String)>, String>) -> (r: Result<
        RamKeystore,
        KeystoreError,
    >)
        ensures
            match (parsed, r) {
                (Err(e), r) => is_backend(r, e@),
                (Ok(entries), Ok(ks)) => opened(entries@) == Ok::<
                    Map<Seq<char>, Seq<u8>>,
                    Seq<char>,
                >(ks@),
                (Ok(entries), Err(e)) => opened(entries@) matches Err(why) && e@
                    == KeystoreErrorView::Backend(why),
            },
    {
        let entries = match parsed {
            Err(e) => {
                return Err(KeystoreError::Backend(e));
            },
            Ok(entries) => entries,
        };
        let ghost all = entries@;
        let mut blobs: Shelf<Token> = Shelf::new();
        let mut i: usize = 0;
        assert(all.take(0) =~= Seq::<(String, String)>::empty());
        assert(blobs@.map_values(|v: Token| v@) =~= Map::<Seq<char>, Seq<u8>>::empty());
        while i < entries.len()
            invariant
                i <= all.len(),
                entries@ == all,
                parsed matches Ok(whole) && whole@ == all,
                opened(all.take(i as int)) == Ok::<Map<Seq<char>, Seq<u8>>, Seq<char>>(
                    blobs@.map_values(|v: Token| v@),
                ),
            decreases all.len() - i,
        {
            let ghost held = blobs@;
            assert(all.take(i + 1).drop_last() =~= all.take(i as int));
            assert(all.take(i + 1).last() == all[i as int]);
            match encoding::base64_bytes(entries[i].1.as_str()) {
                Err(e) => {
                    proof {
                        a_refusal_stays(all, i + 1, e@);
                    }
                    wipe_entries(entries);
                    return Err(KeystoreError::Backend(e));
                },
                Ok(b) => {
                    let token = Token::new(b);
                    blobs.put(entries[i].0.as_str(), token);
                    assert(blobs@.map_values(|v: Token| v@) =~= held.map_values(
                        |v: Token| v@,
                    ).insert(all[i as int].0@, b@));
                },
            }
            i += 1;
        }
        assert(all.take(i as int) =~= all);
        wipe_entries(entries);
        Ok(RamKeystore { blobs })
    }

    /// How many blobs were opened.
    pub fn len(&self) -> (r: usize)
        ensures
            r == self@.dom().len(),
    {
        assert(self@.dom() =~= self.blobs@.dom());
        self.blobs.len()
    }

    /// Whether there are none.
    pub fn is_empty(&self) -> (r: bool)
        ensures
            r == (self@.dom().len() == 0),
    {
        self.len() == 0
    }
}

impl Keystore for RamKeystore {
    fn backend(&self) -> (r: &'static str)
        ensures
            r@ == "file"@,
    {
        "file"
    }

    fn store_blob(&mut self, label: &str, data: &[u8]) -> (r: Result<(), KeystoreError>)
        ensures
            r matches Err(e) && e@ == KeystoreErrorView::Sealed,
            final(self)@ == old(self)@,
    {
        Err(KeystoreError::Sealed)
    }

    fn load_blob(&self, label: &str) -> (r: Result<Option<Vec<u8>>, KeystoreError>)
        ensures
            match r {
                Ok(Some(v)) => self@.contains_key(label@) && v@ == self@[label@],
                Ok(None) => !self@.contains_key(label@),
                Err(_) => false,
            },
    {
        match self.blobs.get(label) {
            Some(v) => Ok(Some(bytes::copy(v.as_slice()))),
            None => Ok(None),
        }
    }

    fn delete_blob(&mut self, label: &str) -> (r: Result<(), KeystoreError>)
        ensures
            r matches Err(e) && e@ == KeystoreErrorView::Sealed,
            final(self)@ == old(self)@,
    {
        Err(KeystoreError::Sealed)
    }
}

/// Material opens exactly where every one of its entries decodes.
pub proof fn material_opens_where_every_entry_decodes(entries: Seq<(String, String)>)
    ensures
        opened(entries) is Ok <==> forall|i: int|
            0 <= i < entries.len() ==> encoding::base64_read((#[trigger] entries[i]).1@) is Ok,
    decreases entries.len(),
{
    if entries.len() > 0 {
        let rest = entries.drop_last();
        material_opens_where_every_entry_decodes(rest);
        assert forall|i: int| 0 <= i < rest.len() implies #[trigger] rest[i] == entries[i] by {}
        if opened(entries) is Ok {
            assert forall|i: int| 0 <= i < entries.len() implies encoding::base64_read(
                (#[trigger] entries[i]).1@,
            ) is Ok by {
                if i < rest.len() {
                    assert(encoding::base64_read(rest[i].1@) is Ok);
                }
            }
        } else if opened(rest) is Err {
            let i = choose|i: int|
                0 <= i < rest.len() && !(encoding::base64_read((#[trigger] rest[i]).1@) is Ok);
            assert(!(encoding::base64_read(entries[i].1@) is Ok));
        } else {
            assert(!(encoding::base64_read(entries[entries.len() - 1].1@) is Ok));
        }
    }
}

/// What opened material holds under a label is what the last entry of the label writes.
pub proof fn the_last_entry_of_a_label_is_opened(entries: Seq<(String, String)>, i: int)
    requires
        opened(entries) is Ok,
        0 <= i < entries.len(),
        forall|j: int| i < j < entries.len() ==> (#[trigger] entries[j]).0@ != entries[i].0@,
    ensures
        opened(entries)->Ok_0.contains_key(entries[i].0@),
        encoding::base64_read(entries[i].1@) == Ok::<Seq<u8>, Seq<char>>(
            opened(entries)->Ok_0[entries[i].0@],
        ),
    decreases entries.len(),
{
    let rest = entries.drop_last();
    if i < entries.len() - 1 {
        assert(entries[entries.len() - 1].0@ != entries[i].0@);
        assert(rest[i] == entries[i]);
        assert forall|j: int| i < j < rest.len() implies (#[trigger] rest[j]).0@ != rest[i].0@ by {
            assert(entries[j].0@ != entries[i].0@);
        }
        the_last_entry_of_a_label_is_opened(rest, i);
    }
}

/// Opened material holds nothing under a label that no entry has.
pub proof fn a_label_that_no_entry_has_is_not_opened(
    entries: Seq<(String, String)>,
    label: Seq<char>,
)
    requires
        opened(entries) is Ok,
        forall|i: int| 0 <= i < entries.len() ==> (#[trigger] entries[i]).0@ != label,
    ensures
        !opened(entries)->Ok_0.contains_key(label),
    decreases entries.len(),
{
    if entries.len() > 0 {
        let rest = entries.drop_last();
        assert forall|i: int| 0 <= i < rest.len() implies (#[trigger] rest[i]).0@ != label by {
            assert(entries[i].0@ != label);
        }
        assert(entries[entries.len() - 1].0@ != label);
        a_label_that_no_entry_has_is_not_opened(rest, label);
    }
}

/// A file that says it is wrapped is never read as a plain one, whatever it parses
/// to; a file that is not there is an empty store, and one that cannot be read is a
/// failure that passes on the reason.
pub proof fn a_wrapped_file_is_never_read_as_plain(
    body: Vec<u8>,
    state: Result<FileState, String>,
    e: String,
)
    ensures
        (encoding::json_number_at(body@, "v"@) matches Some(v) && v >= 2) ==> contents(
            FileRead::Bytes { body, state },
        ) == Err::<Map<Seq<char>, Seq<char>>, KeystoreErrorView>(KeystoreErrorView::Sealed),
        !(encoding::json_number_at(body@, "v"@) matches Some(v) && v >= 2) ==> (match state {
            Ok(s) => contents(FileRead::Bytes { body, state }) == Ok::<
                Map<Seq<char>, Seq<char>>,
                KeystoreErrorView,
            >(s@),
            Err(why) => contents(FileRead::Bytes { body, state }) == Err::<
                Map<Seq<char>, Seq<char>>,
                KeystoreErrorView,
            >(KeystoreErrorView::Backend(why@)),
        }),
        contents(FileRead::Missing) matches Ok(m) && m.len() == 0 && m.dom().finite(),
        contents(FileRead::Failed(e)) == Err::<Map<Seq<char>, Seq<char>>, KeystoreErrorView>(
            KeystoreErrorView::Backend(e@),
        ),
{
}

/// What a label holds is loaded as the bytes that it writes; an empty label is no
/// failure, and a text that writes no bytes is one.
pub proof fn a_label_is_loaded_as_it_decodes(t: Seq<char>, b: Seq<u8>)
    ensures
        loaded(None) == Ok::<Option<Seq<u8>>, KeystoreErrorView>(None),
        loaded(Some(t)) == Ok::<Option<Seq<u8>>, KeystoreErrorView>(Some(b))
            <==> encoding::base64_read(t) == Ok::<Seq<u8>, Seq<char>>(b),
        encoding::base64_read(t) matches Err(why) ==> loaded(Some(t)) == Err::<
            Option<Seq<u8>>,
            KeystoreErrorView,
        >(KeystoreErrorView::Backend(why)),
{
}

/// What is said of a failure says the reason that came with it.
pub proof fn a_keystore_failure_says_why(why: Seq<char>)
    ensures
        text::occurs_in(KeystoreErrorView::Backend(why).text(), why),
        text::occurs_in(KeystoreErrorView::NeedsVerification(why).text(), why),
{
    broadcast use text::parts_stand_in;

}

/// What is stored in memory under a label is what is loaded from it, and other labels
/// keep what they had.
pub proof fn memory_gives_back_what_it_was_given(
    m: &mut MemoryKeystore,
    label: &str,
    data: &[u8],
    stored: Result<(), KeystoreError>,
    after: &MemoryKeystore,
    other: &str,
    r: Result<Option<Vec<u8>>, KeystoreError>,
)
    requires
        call_ensures(MemoryKeystore::store_blob, (m, label, data), stored),
        after@ == final(m)@,
        call_ensures(MemoryKeystore::load_blob, (after, other), r),
    ensures
        stored is Ok,
        other@ == label@ ==> (r matches Ok(Some(v)) && v@ == data@),
        other@ != label@ ==> (r matches Ok(found) && match found {
            Some(v) => old(m)@.contains_key(other@) && v@ == old(m)@[other@],
            None => !old(m)@.contains_key(other@),
        }),
{
}

} // verus!
