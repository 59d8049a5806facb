//! The wrapped keystore file: its format, its digest, and what a daemon makes of
//! it once at startup.
//!
//! A plaintext file holds the material itself. A wrapped file holds a ciphertext
//! that only the signed app can open, a digest that commits to what was wrapped,
//! and the public half of the wrapping key. Shapes that contradict themselves are
//! refused rather than guessed at.
use crate::bytes;
use crate::encoding;
use crate::path;
use crate::secrets::Token;
use crate::text;
use vstd::prelude::*;
use vstd::string::*;
use vstd::utf8::*;

verus! {

/// The state of a wrapped store that is open.
pub const STATE_OPEN: &'static str = "Sealed, open";

/// The state of a wrapped store that is not open.
pub const STATE_NOT_OPEN: &'static str = "Sealed, not open";

/// The wrapped-file version.
pub const V2: u64 = 2;

/// Why a keystore file is not taken.
#[derive(Debug, Clone, PartialEq, Eq)]
pub enum SealError {
    Json(String),
    Version(u32),
    Contradictory(&'static str),
    Base64(&'static str),
    Digest,
    Io(String),
}

/// An error as plain values.
#[verifier::ext_equal]
pub enum SealErrorView {
    Json(Seq<char>),
    Version(u32),
    Contradictory(Seq<char>),
    Base64(Seq<char>),
    Digest,
    Io(Seq<char>),
}

impl View for SealError {
    type V = SealErrorView;

    open spec fn view(&self) -> SealErrorView {
        match self {
            SealError::Json(e) => SealErrorView::Json(e@),
            SealError::Version(v) => SealErrorView::Version(*v),
            SealError::Contradictory(what) => SealErrorView::Contradictory(what@),
            SealError::Base64(what) => SealErrorView::Base64(what@),
            SealError::Digest => SealErrorView::Digest,
            SealError::Io(e) => SealErrorView::Io(e@),
        }
    }
}

impl SealErrorView {
    /// What is said of it.
    pub open spec fn text(self) -> Seq<char> {
        match self {
            SealErrorView::Json(e) => "keystore file is not valid JSON: "@ + e,
            SealErrorView::Version(v) => "keystore file is v"@ + text::decimal(v as nat)
                + ", which this build does not understand"@,
            SealErrorView::Contradictory(what) => "keystore file is self-contradictory ("@ + what
                + "); refusing to guess"@,
            SealErrorView::Base64(what) => "keystore field "@ + what + " is not valid base64"@,
            SealErrorView::Digest => "keystore pub_digest is not 32 bytes of hex"@,
            SealErrorView::Io(e) => "keystore io: "@ + e,
        }
    }
}

impl SealError {
    /// What is said of it.
    pub fn message(&self) -> (r: String)
        ensures
            r@ == self@.text(),
    {
        let mut s = String::new();
        match self {
            SealError::Json(e) => {
                s.append("keystore file is not valid JSON: ");
                s.append(e.as_str());
            },
            SealError::Version(v) => {
                s.append("keystore file is v");
                text::push_decimal(&mut s, *v as u128);
                s.append(", which this build does not understand");
            },
            SealError::Contradictory(what) => {
                s.append("keystore file is self-contradictory (");
                s.append(what);
                s.append("); refusing to guess");
            },
            SealError::Base64(what) => {
                s.append("keystore field ");
                s.append(what);
                s.append(" is not valid base64");
            },
            SealError::Digest => {
                s.append("keystore pub_digest is not 32 bytes of hex");
            },
            SealError::Io(e) => {
                s.append("keystore io: ");
                s.append(e.as_str());
            },
        }
        assert(s@ =~= self@.text());
        s
    }
}

/// The bytes that a keystore digest is taken of. The material is the exact
/// wrapped bytes, never a re-encoding.
pub open spec fn digest_record(se_pub: Seq<u8>, material: Seq<u8>) -> Seq<u8> {
    "sigil.keystore.v2".spec_bytes() + (bytes::field(se_pub) + bytes::field(material))
}

/// The digest that commits to the wrapped material and to the wrapping key.
pub fn digest(se_pub: &[u8], material: &[u8]) -> (r: [u8; 32])
    ensures
        r@ == bytes::blake2b256_of(digest_record(se_pub@, material@)),
{
    let mut m: Vec<u8> = Vec::new();
    bytes::push_bytes(&mut m, "sigil.keystore.v2".as_bytes());
    bytes::push_field(&mut m, se_pub);
    bytes::push_field(&mut m, material);
    assert(m@ =~= digest_record(se_pub@, material@));
    bytes::blake2b256(m.as_slice())
}

/// No two different pairs of key and material are digested from one message.
pub proof fn digest_record_reads_one_way(k: Seq<u8>, m: Seq<u8>, l: Seq<u8>, n: Seq<u8>)
    requires
        k.len() <= u64::MAX,
        m.len() <= u64::MAX,
        l.len() <= u64::MAX,
        n.len() <= u64::MAX,
        digest_record(k, m) == digest_record(l, n),
    ensures
        k == l,
        m == n,
{
    let d = "sigil.keystore.v2".spec_bytes();
    bytes::prefix_reads_one_way(
        d,
        bytes::field(k) + bytes::field(m),
        d,
        bytes::field(l) + bytes::field(n),
    );
    bytes::field_reads_one_way(k, bytes::field(m), l, bytes::field(n));
    assert(bytes::field(m) + Seq::<u8>::empty() =~= bytes::field(m));
    assert(bytes::field(n) + Seq::<u8>::empty() =~= bytes::field(n));
    bytes::field_reads_one_way(m, Seq::empty(), n, Seq::empty());
}

/// Lowercase hex of a digest.
pub fn digest_hex(d: &[u8; 32]) -> (r: String)
    ensures
        r@ == bytes::hex_of(d@),
{
    bytes::hex(d.as_slice())
}

/// The digest that a text of 64 hex digits stands for.
pub open spec fn digest_read(s: Seq<char>) -> Option<Seq<u8>> {
    if s.len() == 64 && bytes::is_hex(s) {
        Some(bytes::hex_bytes(s))
    } else {
        None
    }
}

/// Parse 32 bytes from lowercase or uppercase hex.
pub fn digest_from_hex(s: &str) -> (r: Option<[u8; 32]>)
    ensures
        match r {
            Some(d) => digest_read(s@) == Some(d@),
            None => digest_read(s@) is None,
        },
{
    match bytes::from_hex(s) {
        None => None,
        Some(v) => {
            if v.len() != 32 {
                assert(bytes::hex_bytes(s@).len() == s@.len() / 2);
                return None;
            }
            let mut out: [u8; 32] = [0u8;32];
            let mut i: usize = 0;
            while i < 32
                invariant
                    i <= 32,
                    v.len() == 32,
                    forall|k: int| 0 <= k < i ==> out@[k] == v@[k],
                decreases 32 - i,
            {
                out[i] = v[i];
                i += 1;
            }
            assert(out@ =~= v@);
            Some(out)
        },
    }
}

/// Equality of digests that does not leak how far they matched through timing.
pub fn digests_equal(a: &[u8; 32], b: &[u8; 32]) -> (r: bool)
    ensures
        r == (a@ == b@),
{
    bytes::same_key(a, b)
}

/// The keystore file, as read once at startup.
pub enum KeystoreFile {
    /// Plaintext: the bytes are the material itself.
    V1(Token),
    /// Wrapped: only the app can open the ciphertext.
    V2 { pub_digest: [u8; 32], se_pub: Vec<u8>, ciphertext: Vec<u8> },
    /// No keystore file at all.
    Absent,
}

/// A keystore file as plain values.
#[verifier::ext_equal]
pub enum FileView {
    V1(Seq<u8>),
    V2 { pub_digest: Seq<u8>, se_pub: Seq<u8>, ciphertext: Seq<u8> },
    Absent,
}

impl View for KeystoreFile {
    type V = FileView;

    open spec fn view(&self) -> FileView {
        match self {
            KeystoreFile::V1(b) => FileView::V1(b@),
            KeystoreFile::V2 { pub_digest, se_pub, ciphertext } => FileView::V2 {
                pub_digest: pub_digest@,
                se_pub: se_pub@,
                ciphertext: ciphertext@,
            },
            KeystoreFile::Absent => FileView::Absent,
        }
    }
}

/// Just enough of a keystore file to classify it: which of its keys are there,
/// and what the small public ones hold.
#[derive(Debug, Clone, PartialEq, Eq)]
pub struct SealShape {
    pub v: Option<u64>,
    pub blobs: bool,
    pub ciphertext: Option<String>,
    pub pub_digest: Option<String>,
    pub se_pub: Option<String>,
}

/// A shape as plain values.
#[verifier::ext_equal]
pub struct ShapeView {
    pub v: Option<u64>,
    pub blobs: bool,
    pub ciphertext: Option<Seq<char>>,
    pub pub_digest: Option<Seq<char>>,
    pub se_pub: Option<Seq<char>>,
}

impl View for SealShape {
    type V = ShapeView;

    open spec fn view(&self) -> ShapeView {
        ShapeView {
            v: self.v,
            blobs: self.blobs,
            ciphertext: text::maybe_text(self.ciphertext),
            pub_digest: text::maybe_text(self.pub_digest),
            se_pub: text::maybe_text(self.se_pub),
        }
    }
}

/// The bytes of a field that must be there and must be base64.
pub open spec fn base64_field(field: Option<Seq<char>>) -> Option<Seq<u8>> {
    match field {
        None => None,
        Some(s) => match encoding::base64_read(s) {
            Ok(b) => Some(b),
            Err(_) => None,
        },
    }
}

/// What a file that says it is wrapped is taken for: no plaintext beside the
/// wrapping, a digest of 32 bytes, and two fields in base64.
pub open spec fn wrapped_file(s: ShapeView) -> Result<FileView, SealErrorView> {
    if s.blobs {
        Err(SealErrorView::Contradictory("a wrapped file also carries plaintext blobs"@))
    } else if s.pub_digest is None || digest_read(s.pub_digest->0) is None {
        Err(SealErrorView::Digest)
    } else if base64_field(s.se_pub) is None {
        Err(SealErrorView::Base64("se_pub"@))
    } else if base64_field(s.ciphertext) is None {
        Err(SealErrorView::Base64("ciphertext"@))
    } else {
        Ok(
            FileView::V2 {
                pub_digest: digest_read(s.pub_digest->0)->0,
                se_pub: base64_field(s.se_pub)->0,
                ciphertext: base64_field(s.ciphertext)->0,
            },
        )
    }
}

/// What a file is taken for, by its shape: wrapped where it says version 2,
/// plaintext where it says version 1 or nothing, and refused otherwise.
pub open spec fn classified(
    body: Seq<u8>,
    shape: Result<ShapeView, Seq<char>>,
) -> Result<FileView, SealErrorView> {
    match shape {
        Err(e) => Err(SealErrorView::Json(e)),
        Ok(s) => if s.v == Some(2u64) {
            wrapped_file(s)
        } else if s.v is None || s.v == Some(1u64) {
            if s.ciphertext is Some || s.pub_digest is Some || s.se_pub is Some {
                Err(
                    SealErrorView::Contradictory(
                        "a plaintext file also carries wrapped fields"@,
                    ),
                )
            } else if !s.blobs {
                Err(SealErrorView::Contradictory("no blobs and no wrapping"@))
            } else {
                Ok(FileView::V1(body))
            }
        } else {
            Err(SealErrorView::Version((s.v->0 % 0x1_0000_0000) as u32))
        },
    }
}

/// The plain values of what reading a shape came to.
pub open spec fn shape_read(shape: Result<SealShape, String>) -> Result<ShapeView, Seq<char>> {
    match shape {
        Ok(s) => Ok(s@),
        Err(e) => Err(e@),
    }
}

/// What reading a keystore file came to.
pub enum SealRead {
    /// Its bytes, and the shape that their JSON has.
    Bytes { body: Token, shape: Result<SealShape, String> },
    /// There is no such file.
    Missing,
    /// It could not be read.
    Failed(String),
}

/// What a file is, by what reading it came to.
pub open spec fn read_file(read: SealRead) -> Result<FileView, SealErrorView> {
    match read {
        SealRead::Bytes { body, shape } => classified(body@, shape_read(shape)),
        SealRead::Missing => Ok(FileView::Absent),
        SealRead::Failed(e) => Err(SealErrorView::Io(e@)),
    }
}

fn decoded(field: &Option<String>) -> (r: Option<Vec<u8>>)
    ensures
        match r {
            Some(b) => base64_field(text::maybe_text(*field)) == Some(b@),
            None => base64_field(text::maybe_text(*field)) is None,
        },
{
    match field {
        None => None,
        Some(s) => match encoding::base64_bytes(s.as_str()) {
            Ok(b) => Some(b),
            Err(_) => None,
        },
    }
}

impl KeystoreFile {
    fn parse_wrapped(s: &SealShape) -> (r: Result<KeystoreFile, SealError>)
        ensures
            match r {
                Ok(f) => wrapped_file(s@) == Ok::<FileView, SealErrorView>(f@),
                Err(e) => wrapped_file(s@) == Err::<FileView, SealErrorView>(e@),
            },
    {
        if s.blobs {
            return Err(SealError::Contradictory("a wrapped file also carries plaintext blobs"));
        }
        let digest = match &s.pub_digest {
            None => None,
            Some(hex) => digest_from_hex(hex.as_str()),
        };
        match digest {
            None => Err(SealError::Digest),
            Some(pub_digest) => match decoded(&s.se_pub) {
                None => Err(SealError::Base64("se_pub")),
                Some(se_pub) => match decoded(&s.ciphertext) {
                    None => Err(SealError::Base64("ciphertext")),
                    Some(ciphertext) => Ok(KeystoreFile::V2 { pub_digest, se_pub, ciphertext }),
                },
            },
        }
    }

    /// Classify the bytes of a keystore file. `shape` is what its JSON says of
    /// the keys it holds, or why it is no JSON.
    pub fn parse(body: Token, shape: Result<SealShape, String>) -> (r: Result<
        KeystoreFile,
        SealError,
    >)
        ensures
            match r {
                Ok(f) => classified(body@, shape_read(shape)) == Ok::<FileView, SealErrorView>(f@),
                Err(e) => classified(body@, shape_read(shape)) == Err::<FileView, SealErrorView>(
                    e@,
                ),
            },
    {
        let s = match shape {
            Err(e) => {
                return Err(SealError::Json(e));
            },
            Ok(s) => s,
        };
        let version: Option<u64> = s.v;
        match version {
            Some(2) => KeystoreFile::parse_wrapped(&s),
            None | Some(1) => {
                if s.ciphertext.is_some() || s.pub_digest.is_some() || s.se_pub.is_some() {
                    return Err(
                        SealError::Contradictory("a plaintext file also carries wrapped fields"),
                    );
                }
                if !s.blobs {
                    return Err(SealError::Contradictory("no blobs and no wrapping"));
                }
                Ok(KeystoreFile::V1(body))
            },
            Some(other) => {
                let low: u64 = other % 0x1_0000_0000;
                Err(SealError::Version(low as u32))
            },
        }
    }

    /// The file, by what reading it came to.
    pub fn read(read: SealRead) -> (r: Result<KeystoreFile, SealError>)
        ensures
            match r {
                Ok(f) => read_file(read) == Ok::<FileView, SealErrorView>(f@),
                Err(e) => read_file(read) == Err::<FileView, SealErrorView>(e@),
            },
    {
        match read {
            SealRead::Bytes { body, shape } => KeystoreFile::parse(body, shape),
            SealRead::Missing => Ok(KeystoreFile::Absent),
            SealRead::Failed(e) => Err(SealError::Io(e)),
        }
    }

    /// Whether this is the wrapped form.
    pub fn is_wrapped(&self) -> (r: bool)
        ensures
            r == (self@ is V2),
    {
        matches!(self, KeystoreFile::V2 { .. })
    }
}

/// A file that is wrapped never carries material, and a file that carries
/// wrapped fields is never taken for plaintext.
pub proof fn a_file_is_never_both(body: Seq<u8>, s: ShapeView)
    ensures
        s.blobs && s.v == Some(2u64) ==> classified(body, Ok(s)) is Err,
        s.ciphertext is Some && s.v != Some(2u64) ==> classified(body, Ok(s)) is Err,
        s.pub_digest is Some && s.v != Some(2u64) ==> classified(body, Ok(s)) is Err,
        s.se_pub is Some && s.v != Some(2u64) ==> classified(body, Ok(s)) is Err,
        (classified(body, Ok(s)) matches Ok(f) && f is V1) ==> s.blobs && s.ciphertext is None
            && s.pub_digest is None && s.se_pub is None,
        (classified(body, Ok(s)) matches Ok(f) && f is V2) ==> !s.blobs,
        !(classified(body, Ok(s)) matches Ok(f) && f is Absent),
{
}

/// The fields of a wrapped file besides its version.
pub open spec fn v2_fields(d: Seq<u8>, se_pub: Seq<u8>, ciphertext: Seq<u8>) -> Seq<
    (Seq<char>, Seq<char>),
> {
    seq![
        ("pub_digest"@, bytes::hex_of(d)),
        ("se_pub"@, encoding::base64_of(se_pub)),
        ("ciphertext"@, encoding::base64_of(ciphertext)),
    ]
}

/// A byte string short enough for its base64 to fit in memory.
pub open spec fn encodable(b: Seq<u8>) -> bool {
    4 * (b.len() / 3 + 1) <= isize::MAX
}

/// The shape of a file whose JSON has, under each of these keys, a value of the
/// type it should be, nothing or null, by what stands there.
pub open spec fn shape_in(body: Seq<u8>) -> ShapeView {
    ShapeView {
        v: encoding::json_number_at(body, "v"@),
        blobs: encoding::json_null_at(body, "blobs"@) == Some(false),
        ciphertext: encoding::json_text_at(body, "ciphertext"@),
        pub_digest: encoding::json_text_at(body, "pub_digest"@),
        se_pub: encoding::json_text_at(body, "se_pub"@),
    }
}

impl SealShape {
    /// The shape of a rendered file, by what stands under each key of its JSON. A
    /// field that is null, or that holds a value of another type, counts as absent.
    /// It reads the JSON as a whole, and leaves what it copies unwiped: a file that
    /// may hold plaintext blobs is read by its typed fields instead.
    pub fn of(body: &[u8]) -> (r: SealShape)
        ensures
            r@ == shape_in(body@),
    {
        let r = SealShape {
            v: encoding::json_number_field(body, "v"),
            blobs: match encoding::json_null_field(body, "blobs") {
                Some(null) => !null,
                None => false,
            },
            ciphertext: encoding::json_text_field(body, "ciphertext"),
            pub_digest: encoding::json_text_field(body, "pub_digest"),
            se_pub: encoding::json_text_field(body, "se_pub"),
        };
        assert(r@ =~= shape_in(body@));
        r
    }
}

/// The body of a wrapped file. Read back, its fields classify as exactly the
/// digest, key and ciphertext that went in.
pub fn render_v2(pub_digest: &[u8; 32], se_pub: &[u8], ciphertext: &[u8]) -> (r: String)
    requires
        encodable(se_pub@),
        encodable(ciphertext@),
    ensures
        r@ == encoding::json_object_text(
            v2_fields(pub_digest@, se_pub@, ciphertext@),
            "v"@,
            V2,
        ),
        classified(encode_utf8(r@), Ok(shape_in(encode_utf8(r@)))) == Ok::<
            FileView,
            SealErrorView,
        >(
            FileView::V2 {
                pub_digest: pub_digest@,
                se_pub: se_pub@,
                ciphertext: ciphertext@,
            },
        ),
{
    let hex = digest_hex(pub_digest);
    let key = encoding::base64_text(se_pub);
    let ct = encoding::base64_text(ciphertext);
    let texts: [(&str, &str); 3] = [
        ("pub_digest", hex.as_str()),
        ("se_pub", key.as_str()),
        ("ciphertext", ct.as_str()),
    ];
    proof {
        reveal_strlit("pub_digest");
        reveal_strlit("se_pub");
        reveal_strlit("ciphertext");
        reveal_strlit("v");
        reveal_strlit("blobs");
        bytes::hex_reads_back(pub_digest@);
        assert("blobs"@.len() == 5);
        assert("pub_digest"@.len() == 10 && "ciphertext"@.len() == 10);
        assert("se_pub"@.len() == 6 && "v"@.len() == 1);
        assert("pub_digest"@[0] == 'p' && "ciphertext"@[0] == 'c');
        assert(encoding::str_pairs(texts@) =~= v2_fields(pub_digest@, se_pub@, ciphertext@));
    }
    let r = encoding::json_object(texts.as_slice(), "v", V2);
    proof {
        let p = encoding::str_pairs(texts@);
        assert(p[0].0 == "pub_digest"@ && p[1].0 == "se_pub"@ && p[2].0 == "ciphertext"@);
        assert(!encoding::holds_key(p, "v"@, "blobs"@));
    }
    r
}

/// What the adoption marker recorded when this machine first served a wrapped
/// store: which key it was wrapped to, and when.
#[derive(Debug, Clone, PartialEq, Eq)]
pub struct AdoptionMarker {
    pub se_pub: Vec<u8>,
    pub adopted_at_ms: u64,
}

/// An adoption marker as plain values.
#[verifier::ext_equal]
pub struct MarkerView {
    pub se_pub: Seq<u8>,
    pub adopted_at_ms: u64,
}

impl View for AdoptionMarker {
    type V = MarkerView;

    open spec fn view(&self) -> MarkerView {
        MarkerView { se_pub: self.se_pub@, adopted_at_ms: self.adopted_at_ms }
    }
}

/// The path of the adoption marker under the home directory, where there is one.
pub fn adopted_marker_path(home: Option<&[u8]>) -> (r: Option<Vec<u8>>)
    ensures
        match (home, r) {
            (Some(h), Some(p)) => p@ == path::under(h@, "adopted".spec_bytes()),
            (None, None) => true,
            _ => false,
        },
{
    match home {
        Some(h) => Some(path::join(h, "adopted")),
        None => None,
    }
}

/// Whether the adoption marker is there. `exists` is whether its path does, or
/// `None` where it has no path.
pub fn is_adopted(exists: Option<bool>) -> (r: bool)
    ensures
        r == (exists == Some(true)),
{
    match exists {
        Some(there) => there,
        None => false,
    }
}

/// What a marker file says. One that cannot be parsed still says that this
/// machine is adopted, to a key that equals no real one.
pub open spec fn marker_in(body: Seq<u8>) -> MarkerView {
    MarkerView {
        se_pub: match base64_field(encoding::json_text_at(body, "se_pub"@)) {
            Some(key) => key,
            None => Seq::empty(),
        },
        adopted_at_ms: match encoding::json_number_at(body, "adopted_at_ms"@) {
            Some(ms) => ms,
            None => 0u64,
        },
    }
}

/// The adoption marker, where its file could be read. A marker that exists but
/// cannot be parsed comes back with an empty key: it must not decay into "never
/// adopted".
pub fn read_adoption_marker(body: Option<&[u8]>) -> (r: Option<AdoptionMarker>)
    ensures
        match (body, r) {
            (Some(b), Some(m)) => m@ == marker_in(b@),
            (None, None) => true,
            _ => false,
        },
{
    match body {
        None => None,
        Some(b) => {
            let field = encoding::json_text_field(b, "se_pub");
            let se_pub = match decoded(&field) {
                Some(key) => key,
                None => Vec::new(),
            };
            let adopted_at_ms: u64 = match encoding::json_number_field(b, "adopted_at_ms") {
                Some(ms) => ms,
                None => 0,
            };
            let m = AdoptionMarker { se_pub, adopted_at_ms };
            assert(m@ =~= marker_in(b@));
            Some(m)
        },
    }
}

/// The body of the adoption marker. Reading it back gives the key and the time
/// that went in.
pub fn adoption_marker_body(adopted_at_ms: u64, se_pub: &[u8]) -> (r: String)
    requires
        encodable(se_pub@),
    ensures
        r@ == encoding::json_object_text(
            seq![("se_pub"@, encoding::base64_of(se_pub@))],
            "adopted_at_ms"@,
            adopted_at_ms,
        ),
        marker_in(encode_utf8(r@)) == (MarkerView { se_pub: se_pub@, adopted_at_ms }),
{
    let key = encoding::base64_text(se_pub);
    let texts: [(&str, &str); 1] = [("se_pub", key.as_str())];
    proof {
        reveal_strlit("se_pub");
        reveal_strlit("adopted_at_ms");
        assert("se_pub"@.len() == 6 && "adopted_at_ms"@.len() == 13);
        assert(encoding::str_pairs(texts@) =~= seq![("se_pub"@, encoding::base64_of(se_pub@))]);
    }
    let r = encoding::json_object(texts.as_slice(), "adopted_at_ms", adopted_at_ms);
    proof {
        let p = encoding::str_pairs(texts@);
        assert(p[0].0 == "se_pub"@);
    }
    r
}

/// What the daemon made of its keystore at startup. Read once and never
/// refreshed, so that a file swapped later does not become authoritative.
#[derive(Debug, Clone, PartialEq, Eq)]
pub enum SealState {
    /// A plaintext store, or none, on a machine that never adopted.
    Plain,
    /// A wrapped store. Nothing is served until the app opens it.
    Sealed { expected: [u8; 32], se_pub: Vec<u8> },
    /// A plaintext store, or none, on a machine that has served a wrapped one.
    Downgraded,
    /// A store wrapped to another key than the one this machine adopted.
    KeyChanged,
}

/// A seal state as plain values.
#[verifier::ext_equal]
pub enum SealView {
    Plain,
    Sealed { expected: Seq<u8>, se_pub: Seq<u8> },
    Downgraded,
    KeyChanged,
}

impl View for SealState {
    type V = SealView;

    open spec fn view(&self) -> SealView {
        match self {
            SealState::Plain => SealView::Plain,
            SealState::Sealed { expected, se_pub } => SealView::Sealed {
                expected: expected@,
                se_pub: se_pub@,
            },
            SealState::Downgraded => SealView::Downgraded,
            SealState::KeyChanged => SealView::KeyChanged,
        }
    }
}

/// What a keystore file means on a machine with this adoption marker.
pub open spec fn seal_of(file: FileView, marker: Option<MarkerView>) -> SealView {
    match file {
        FileView::V2 { pub_digest, se_pub, ciphertext } => if marker is Some && marker->0.se_pub
            != se_pub {
            SealView::KeyChanged
        } else {
            SealView::Sealed { expected: pub_digest, se_pub }
        },
        _ => if marker is Some {
            SealView::Downgraded
        } else {
            SealView::Plain
        },
    }
}

impl SealView {
    /// Gated work is refused: a wrapped store that is not open, and any sign of a
    /// downgrade or a substitution.
    pub open spec fn blocks(self, provisioned: bool) -> bool {
        match self {
            SealView::Plain => false,
            SealView::Sealed { .. } => !provisioned,
            SealView::Downgraded => true,
            SealView::KeyChanged => true,
        }
    }

    /// Why gated work is refused, where it is.
    pub open spec fn why(self, provisioned: bool) -> Option<Seq<char>> {
        match self {
            SealView::Plain => None,
            SealView::Sealed { .. } => if provisioned {
                None
            } else {
                Some(SEALED_WHY@)
            },
            SealView::Downgraded => Some(DOWNGRADED_WHY@),
            SealView::KeyChanged => Some(KEY_CHANGED_WHY@),
        }
    }
}

/// Said of a wrapped store that is not open.
pub const SEALED_WHY: &'static str =
    "keystore sealed; the Sigil app must be running to open it. Your pairing is intact: nothing here needs re-pairing.";

/// Said of a plaintext store where a wrapped one was adopted.
pub const DOWNGRADED_WHY: &'static str =
    "keystore downgraded: this machine served a sealed keystore and now finds a plaintext one. Refusing to serve. If you de-adopted on purpose, run: sigil keystore unwrap --confirm";

/// Said of a store wrapped to another key than the adopted one.
pub const KEY_CHANGED_WHY: &'static str =
    "keystore sealed to a DIFFERENT Secure Enclave key than this machine adopted. Refusing to serve. Nothing legitimate re-wraps a keystore to another key; treat this as a substituted keystore file until you know otherwise.";

/// The plain values of a marker that may be absent.
pub open spec fn maybe_marker(m: Option<&AdoptionMarker>) -> Option<MarkerView> {
    match m {
        Some(m) => Some(m@),
        None => None,
    }
}

impl SealState {
    /// Classify `file` against the adoption marker. `marker` is `None` where this
    /// machine has never served a wrapped store.
    pub fn resolve(file: &KeystoreFile, marker: Option<&AdoptionMarker>) -> (r: SealState)
        ensures
            r@ == seal_of(file@, maybe_marker(marker)),
    {
        match file {
            KeystoreFile::V2 { pub_digest, se_pub, ciphertext } => {
                let changed = match marker {
                    Some(m) => !bytes::same(m.se_pub.as_slice(), se_pub.as_slice()),
                    None => false,
                };
                if changed {
                    SealState::KeyChanged
                } else {
                    SealState::Sealed {
                        expected: *pub_digest,
                        se_pub: bytes::copy(se_pub.as_slice()),
                    }
                }
            },
            _ => {
                if marker.is_some() {
                    SealState::Downgraded
                } else {
                    SealState::Plain
                }
            },
        }
    }

    /// Whether the daemon must refuse to serve gated work.
    pub fn blocks_serving(&self, provisioned: bool) -> (r: bool)
        ensures
            r == self@.blocks(provisioned),
    {
        match self {
            SealState::Plain => false,
            SealState::Sealed { .. } => !provisioned,
            SealState::Downgraded => true,
            SealState::KeyChanged => true,
        }
    }

    /// The one line that every surface uses for why gated work is refused. It
    /// never tells anyone to pair again: under a sealed store the pairing is
    /// intact.
    pub fn explain(&self, provisioned: bool) -> (r: Option<&'static str>)
        ensures
            match r {
                Some(why) => self@.why(provisioned) == Some(why@),
                None => self@.why(provisioned) is None,
            },
    {
        match self {
            SealState::Plain => None,
            SealState::Sealed { .. } => {
                if provisioned {
                    None
                } else {
                    Some(SEALED_WHY)
                }
            },
            SealState::Downgraded => Some(DOWNGRADED_WHY),
            SealState::KeyChanged => Some(KEY_CHANGED_WHY),
        }
    }
}

/// Work is refused exactly where there is an explanation for it.
pub proof fn a_refusal_is_always_explained(s: SealView, provisioned: bool)
    ensures
        s.blocks(provisioned) <==> s.why(provisioned) is Some,
{
}

/// Once a machine has adopted, only the store wrapped to the adopted key ever
/// serves, and only once it is open: plaintext, an absent file and another key
/// all refuse, open or not.
pub proof fn an_adopted_machine_serves_only_its_own_store(
    file: FileView,
    marker: MarkerView,
    provisioned: bool,
)
    ensures
        !seal_of(file, Some(marker)).blocks(provisioned) ==> provisioned && (file matches
            FileView::V2 { se_pub, .. } && se_pub == marker.se_pub),
{
}

/// A marker that cannot be parsed does not lift the refusal: its empty key equals
/// the key of no store that has one.
pub proof fn an_unreadable_marker_refuses(file: FileView, body: Seq<u8>, provisioned: bool)
    requires
        base64_field(encoding::json_text_at(body, "se_pub"@)) is None,
        file matches FileView::V2 { se_pub, .. } ==> se_pub.len() > 0,
    ensures
        seal_of(file, Some(marker_in(body))).blocks(provisioned),
{
}

/// What a file is taken for, by what it carries. Wrapped: version 2, no blobs, a
/// digest of 64 hex digits, and a key and a ciphertext that are base64; it is then
/// what these decode to. Plaintext: version 1 or none, blobs, and none of the wrapped
/// fields; it is then its own bytes, unchanged. Anything else is refused, another
/// version by its number.
pub proof fn a_file_is_what_it_carries(body: Seq<u8>, s: ShapeView)
    ensures
        (classified(body, Ok(s)) matches Ok(f) && f is V2) <==> s.v == Some(2u64) && !s.blobs && (
        s.pub_digest matches Some(d) && d.len() == 64 && bytes::is_hex(d)) && (s.se_pub matches Some(
            k,
        ) && encoding::base64_read(k) is Ok) && (s.ciphertext matches Some(c)
            && encoding::base64_read(c) is Ok),
        (classified(body, Ok(s)) matches Ok(f) && f is V1) <==> (s.v is None || s.v == Some(1u64))
            && s.blobs && s.ciphertext is None && s.pub_digest is None && s.se_pub is None,
        (classified(body, Ok(s)) matches Ok(FileView::V1(b)) ==> b == body),
        (classified(body, Ok(s)) matches Ok(FileView::V2 { pub_digest, se_pub, ciphertext }) ==> {
            &&& pub_digest == bytes::hex_bytes(s.pub_digest->0)
            &&& pub_digest.len() == 32
            &&& encoding::base64_read(s.se_pub->0) == Ok::<Seq<u8>, Seq<char>>(se_pub)
            &&& encoding::base64_read(s.ciphertext->0) == Ok::<Seq<u8>, Seq<char>>(ciphertext)
        }),
        (classified(body, Ok(s)) matches Err(e) && e is Version) <==> (s.v matches Some(v) && v != 1
            && v != 2),
{
}

/// Adoption decides what serves: on a machine that never adopted, a plaintext store
/// or none serves and a wrapped one waits to be opened, by its own digest and key; on
/// one that did, nothing serves but the wrapped store of the adopted key, and another
/// key is told apart from a downgrade.
pub proof fn adoption_decides_what_serves(file: FileView, marker: Option<MarkerView>)
    ensures
        seal_of(file, marker) is Plain <==> marker is None && !(file is V2),
        seal_of(file, marker) is Downgraded <==> marker is Some && !(file is V2),
        seal_of(file, marker) is KeyChanged <==> marker is Some && (file matches FileView::V2 {
            se_pub,
            ..
        } && se_pub != marker->0.se_pub),
        (seal_of(file, marker) matches SealView::Sealed { expected, se_pub } ==> (
        file matches FileView::V2 { pub_digest, se_pub: key, .. } && expected == pub_digest && se_pub
            == key)),
        forall|provisioned: bool|
            #[trigger] seal_of(file, marker).blocks(provisioned) <==> !(seal_of(file, marker) is Plain
                || (seal_of(file, marker) is Sealed && provisioned)),
{
}

/// A marker is what its file says of the key and of the time; a key that cannot be read
/// is the empty one, which no store has.
pub proof fn a_marker_is_what_its_file_says(body: Seq<u8>, key: Seq<u8>, ms: u64)
    ensures
        (encoding::json_text_at(body, "se_pub"@) matches Some(s) && encoding::base64_read(s) == Ok::<
            Seq<u8>,
            Seq<char>,
        >(key)) ==> marker_in(body).se_pub == key,
        encoding::json_text_at(body, "se_pub"@) is None ==> marker_in(body).se_pub.len() == 0,
        (encoding::json_text_at(body, "se_pub"@) matches Some(s) && encoding::base64_read(s) is Err)
            ==> marker_in(body).se_pub.len() == 0,
        encoding::json_number_at(body, "adopted_at_ms"@) == Some(ms) ==> marker_in(
            body,
        ).adopted_at_ms == ms,
        encoding::json_number_at(body, "adopted_at_ms"@) is None ==> marker_in(body).adopted_at_ms
            == 0,
{
}

/// What is said of a file that is refused says what is wrong with it.
pub proof fn a_refused_file_says_what_is_wrong(what: Seq<char>, v: u32)
    ensures
        text::occurs_in(SealErrorView::Json(what).text(), what),
        text::occurs_in(SealErrorView::Version(v).text(), text::decimal(v as nat)),
        text::occurs_in(SealErrorView::Contradictory(what).text(), what),
        text::occurs_in(SealErrorView::Base64(what).text(), what),
        text::occurs_in(SealErrorView::Io(what).text(), what),
{
    broadcast use text::parts_stand_in;

}

/// Reading a file passes on what its bytes are; one that is not there is told from one
/// that cannot be read.
pub proof fn an_absent_file_is_no_unreadable_one(body: Token, shape: SealShape, e: String)
    ensures
        read_file(SealRead::Missing) == Ok::<FileView, SealErrorView>(FileView::Absent),
        read_file(SealRead::Failed(e)) == Err::<FileView, SealErrorView>(SealErrorView::Io(e@)),
        read_file(SealRead::Bytes { body, shape: Err(e) }) == Err::<FileView, SealErrorView>(
            SealErrorView::Json(e@),
        ),
        read_file(SealRead::Bytes { body, shape: Ok(shape) }) matches Ok(f) ==> !(f is Absent),
{
}

/// The shape of a file is what stands under its keys: the version, whether there are
/// blobs, and the three wrapped fields.
pub proof fn a_shape_is_what_stands_there(body: Seq<u8>)
    ensures
        shape_in(body).v == encoding::json_number_at(body, "v"@),
        shape_in(body).blobs <==> (encoding::json_null_at(body, "blobs"@) matches Some(null)
            && !null),
        shape_in(body).ciphertext == encoding::json_text_at(body, "ciphertext"@),
        shape_in(body).pub_digest == encoding::json_text_at(body, "pub_digest"@),
        shape_in(body).se_pub == encoding::json_text_at(body, "se_pub"@),
{
}

/// A wrapped file is written with its digest in hex and its key and ciphertext in
/// base64, each under its own name.
pub proof fn a_wrapped_file_is_written_field_by_field(
    d: Seq<u8>,
    se_pub: Seq<u8>,
    ciphertext: Seq<u8>,
)
    ensures
        v2_fields(d, se_pub, ciphertext).len() == 3,
        v2_fields(d, se_pub, ciphertext).contains(("pub_digest"@, bytes::hex_of(d))),
        v2_fields(d, se_pub, ciphertext).contains(("se_pub"@, encoding::base64_of(se_pub))),
        v2_fields(d, se_pub, ciphertext).contains(
            ("ciphertext"@, encoding::base64_of(ciphertext)),
        ),
{
    let f = v2_fields(d, se_pub, ciphertext);
    assert(f[0] == ("pub_digest"@, bytes::hex_of(d)));
    assert(f[1] == ("se_pub"@, encoding::base64_of(se_pub)));
    assert(f[2] == ("ciphertext"@, encoding::base64_of(ciphertext)));
}

} // verus!
