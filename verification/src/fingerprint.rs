//! Content fingerprints and the options that choose what of a file goes into
//! one.

use vstd::prelude::*;

use base64::Engine;

verus! {

/// The digest bytes of some content.
pub struct Fingerprint(Vec<u8>);

impl View for Fingerprint {
    type V = Seq<u8>;

    closed spec fn view(&self) -> Seq<u8> {
        self.0@
    }
}

/// The lower-case hexadecimal digit of `d` (`d < 16`).
pub open spec fn hex_digit(d: nat) -> char {
    if d < 10 {
        ((d + '0' as nat) as u32) as char
    } else {
        ((d - 10 + 'a' as nat) as u32) as char
    }
}

/// The lower-case hexadecimal form of `bytes`: two digits per byte, the high
/// half first.
pub open spec fn spec_hex(bytes: Seq<u8>) -> Seq<char>
    decreases bytes.len(),
{
    if bytes.len() == 0 {
        Seq::<char>::empty()
    } else {
        spec_hex(bytes.drop_last()) + seq![
            hex_digit((bytes.last() / 16) as nat),
            hex_digit((bytes.last() % 16) as nat),
        ]
    }
}

/// The character of the URL-safe base64 alphabet for the 6-bit value `d`:
/// `A`-`Z`, `a`-`z`, `0`-`9`, `-`, `_`.
pub open spec fn b64_char(d: nat) -> char {
    if d < 26 {
        ((d + 'A' as nat) as u32) as char
    } else if d < 52 {
        ((d - 26 + 'a' as nat) as u32) as char
    } else if d < 62 {
        ((d - 52 + '0' as nat) as u32) as char
    } else if d == 62 {
        '-'
    } else {
        '_'
    }
}

/// The URL-safe base64 encoding of `bytes` without padding: each group of
/// three bytes as four characters of six bits each, high bits first; a last
/// group of two bytes as three characters and of one byte as two, its
/// missing bits zero.
pub open spec fn base64_url_no_pad(bytes: Seq<u8>) -> Seq<char>
    decreases bytes.len(),
{
    if bytes.len() == 0 {
        Seq::<char>::empty()
    } else if bytes.len() == 1 {
        let a = bytes[0] as nat;
        seq![b64_char(a / 4), b64_char((a % 4) * 16)]
    } else if bytes.len() == 2 {
        let a = bytes[0] as nat;
        let b = bytes[1] as nat;
        seq![b64_char(a / 4), b64_char((a % 4) * 16 + b / 16), b64_char((b % 16) * 4)]
    } else {
        let a = bytes[0] as nat;
        let b = bytes[1] as nat;
        let c = bytes[2] as nat;
        seq![b64_char(a / 4), b64_char((a % 4) * 16 + b / 16), b64_char((b % 16) * 4 + c / 64), b64_char(c % 64)]
            + base64_url_no_pad(bytes.skip(3))
    }
}

/// The lower-case hexadecimal digit of `d`.
fn hex_char(d: u8) -> (c: char)
    requires
        d < 16,
    ensures
        c == hex_digit(d as nat),
{
    if d < 10 {
        (d + 48) as char
    } else {
        (d + 87) as char
    }
}

/// The lower-case hexadecimal form of `bytes`, as `hex::encode` of the
/// `hex` crate gives it: two digits per byte, the high half first.
fn hex_encode(bytes: &[u8]) -> (s: String)
    ensures
        s@ == spec_hex(bytes@),
{
    let mut s = String::new();
    let mut i: usize = 0;
    while i < bytes.len()
        invariant
            i <= bytes@.len(),
            s@ == spec_hex(bytes@.take(i as int)),
        decreases bytes@.len() - i,
    {
        let b = bytes[i];
        crate::text::push_char(&mut s, hex_char(b / 16));
        crate::text::push_char(&mut s, hex_char(b % 16));
        assert(bytes@.take(i as int + 1).drop_last() =~= bytes@.take(i as int));
        assert(s@ =~= spec_hex(bytes@.take(i as int + 1)));
        i = i + 1;
    }
    assert(bytes@.take(bytes@.len() as int) =~= bytes@);
    s
}

/// `Engine::encode` of the `base64` crate with the URL-safe alphabet and no
/// padding, as [`base64_url_no_pad`] states it. It panics when the encoded length overflows `usize`, so such
/// inputs are refused.
#[verifier::external_body]
fn base64_encode(bytes: &[u8]) -> (s: String)
    requires
        bytes@.len() / 3 * 4 + 4 <= usize::MAX,
    ensures
        s@ == base64_url_no_pad(bytes@),
{
    base64::engine::general_purpose::URL_SAFE_NO_PAD.encode(bytes)
}

/// The SHA-256 digest of `bytes`, as the `sha2` crate computes it.
pub uninterp spec fn sha256(bytes: Seq<u8>) -> Seq<u8>;

/// `Digest::digest` of the `sha2` crate's `Sha256`: the SHA-256 digest of
/// `bytes`.
#[verifier::external_body]
fn sha256_digest(bytes: &[u8]) -> (d: Vec<u8>)
    ensures
        d@ == sha256(bytes@),
{
    <sha2::Sha256 as sha2::Digest>::digest(bytes).to_vec()
}

impl Fingerprint {
    /// The fingerprint of `content`: its SHA-256 digest. Feeding a digest
    /// several pieces in turn gives the digest of them joined, so this is
    /// also the fingerprint of pieces that join to `content`.
    pub fn of_content(content: &[u8]) -> (f: Fingerprint)
        ensures
            f@ == sha256(content@),
    {
        Fingerprint(sha256_digest(content))
    }

    /// The fingerprint whose digest is the bytes read from a source.
    pub fn load(source: &[u8]) -> (f: Fingerprint)
        ensures
            f@ == source@,
    {
        let mut bytes: Vec<u8> = Vec::new();
        let mut i: usize = 0;
        while i < source.len()
            invariant
                i <= source.len(),
                bytes@ == source@.take(i as int),
            decreases source.len() - i,
        {
            bytes.push(source[i]);
            assert(source@.take(i + 1) =~= source@.take(i as int).push(source@[i as int]));
            i = i + 1;
        }
        assert(source@.take(source@.len() as int) =~= source@);
        Fingerprint(bytes)
    }

    /// Writes the digest bytes to `sink`.
    pub fn store(&self, sink: &mut Vec<u8>)
        ensures
            final(sink)@ == old(sink)@ + self@,
    {
        let ghost start = sink@;
        let mut i: usize = 0;
        while i < self.0.len()
            invariant
                i <= self.0@.len(),
                sink@ == start + self.0@.take(i as int),
            decreases self.0.len() - i,
        {
            sink.push(self.0[i]);
            assert(self.0@.take(i + 1) =~= self.0@.take(i as int).push(self.0@[i as int]));
            i = i + 1;
        }
        assert(self.0@.take(self.0@.len() as int) =~= self.0@);
    }

    /// The digest bytes.
    pub fn as_bytes(&self) -> (b: &[u8])
        ensures
            b@ == self@,
    {
        self.0.as_slice()
    }

    /// The digest in lower-case hexadecimal.
    pub fn hex_digest(&self) -> (s: String)
        ensures
            s@ == spec_hex(self@),
    {
        hex_encode(self.0.as_slice())
    }

    /// The digest in URL-safe base64 without padding.
    pub fn base64_digest(&self) -> (s: String)
        requires
            self@.len() / 3 * 4 + 4 <= usize::MAX,
        ensures
            s@ == base64_url_no_pad(self@),
    {
        base64_encode(self.0.as_slice())
    }

    /// The text of the fingerprint: its base64 digest.
    pub fn to_string(&self) -> (s: String)
        requires
            self@.len() / 3 * 4 + 4 <= usize::MAX,
        ensures
            s@ == base64_url_no_pad(self@),
    {
        self.base64_digest()
    }
}

/// What of a file goes into its fingerprint: its path, its modification
/// time, its size and its contents, each when chosen.
#[derive(Copy, Clone, Debug, PartialEq, Eq)]
pub struct HashOptions {
    path: bool,
    mtime: bool,
    size: bool,
    contents: bool,
}

impl HashOptions {
    /// Whether the path is hashed.
    pub closed spec fn hashes_path(self) -> bool {
        self.path
    }

    /// Whether the modification time is hashed.
    pub closed spec fn hashes_mtime(self) -> bool {
        self.mtime
    }

    /// Whether the size is hashed.
    pub closed spec fn hashes_size(self) -> bool {
        self.size
    }

    /// Whether the contents are hashed.
    pub closed spec fn hashes_contents(self) -> bool {
        self.contents
    }

    /// Whether the path is hashed.
    pub fn uses_path(&self) -> (res: bool)
        ensures
            res == self.hashes_path(),
    {
        self.path
    }

    /// Whether the modification time is hashed.
    pub fn uses_mtime(&self) -> (res: bool)
        ensures
            res == self.hashes_mtime(),
    {
        self.mtime
    }

    /// Whether the size is hashed.
    pub fn uses_size(&self) -> (res: bool)
        ensures
            res == self.hashes_size(),
    {
        self.size
    }

    /// Whether the contents are hashed.
    pub fn uses_contents(&self) -> (res: bool)
        ensures
            res == self.hashes_contents(),
    {
        self.contents
    }

    /// Options that hash nothing.
    pub fn new() -> (o: HashOptions)
        ensures
            !o.hashes_path() && !o.hashes_mtime() && !o.hashes_size() && !o.hashes_contents(),
    {
        HashOptions { path: false, mtime: false, size: false, contents: false }
    }

    /// These options, with the path hashed or not.
    pub fn path(self, path: bool) -> (o: HashOptions)
        ensures
            o.hashes_path() == path,
            o.hashes_mtime() == self.hashes_mtime(),
            o.hashes_size() == self.hashes_size(),
            o.hashes_contents() == self.hashes_contents(),
    {
        HashOptions { path, ..self }
    }

    /// These options, with the modification time hashed or not.
    pub fn mtime(self, mtime: bool) -> (o: HashOptions)
        ensures
            o.hashes_path() == self.hashes_path(),
            o.hashes_mtime() == mtime,
            o.hashes_size() == self.hashes_size(),
            o.hashes_contents() == self.hashes_contents(),
    {
        HashOptions { mtime, ..self }
    }

    /// These options, with the size hashed or not.
    pub fn size(self, size: bool) -> (o: HashOptions)
        ensures
            o.hashes_path() == self.hashes_path(),
            o.hashes_mtime() == self.hashes_mtime(),
            o.hashes_size() == size,
            o.hashes_contents() == self.hashes_contents(),
    {
        HashOptions { size, ..self }
    }

    /// These options, with the contents hashed or not.
    pub fn contents(self, contents: bool) -> (o: HashOptions)
        ensures
            o.hashes_path() == self.hashes_path(),
            o.hashes_mtime() == self.hashes_mtime(),
            o.hashes_size() == self.hashes_size(),
            o.hashes_contents() == contents,
    {
        HashOptions { contents, ..self }
    }
}

impl Default for HashOptions {
    fn default() -> (o: HashOptions)
        ensures
            !o.hashes_path() && !o.hashes_mtime() && !o.hashes_size() && !o.hashes_contents(),
    {
        HashOptions::new()
    }
}

/// `bytes` appended to `out`.
fn append_bytes(out: &mut Vec<u8>, bytes: &[u8])
    ensures
        final(out)@ == old(out)@ + bytes@,
{
    let ghost start = out@;
    let mut i: usize = 0;
    while i < bytes.len()
        invariant
            i <= bytes@.len(),
            out@ == start + bytes@.take(i as int),
        decreases bytes.len() - i,
    {
        out.push(bytes[i]);
        assert(bytes@.take(i + 1) =~= bytes@.take(i as int).push(bytes@[i as int]));
        i = i + 1;
    }
    assert(bytes@.take(bytes@.len() as int) =~= bytes@);
}

/// The bytes of the text `s`, for texts of ASCII characters.
pub open spec fn ascii_bytes(s: Seq<char>) -> Seq<u8> {
    s.map_values(|c: char| (c as u32) as u8)
}

/// A labelled piece of what a file's fingerprint covers: the label, then
/// the bytes; nothing when the piece is not chosen.
pub open spec fn piece(chosen: bool, label: Seq<char>, bytes: Option<Seq<u8>>) -> Seq<u8> {
    if chosen {
        ascii_bytes(label) + match bytes {
            Some(b) => b,
            None => Seq::<u8>::empty(),
        }
    } else {
        Seq::<u8>::empty()
    }
}

/// What the fingerprint of a file covers, in order: `path:` and its path,
/// `mtime:` and its modification time, `size:` and its size, `contents:` and
/// its contents, each when the options choose it.
pub open spec fn spec_hash_input(
    options: HashOptions,
    path: Seq<u8>,
    mtime: Option<Seq<u8>>,
    size: Option<Seq<u8>>,
    contents: Option<Seq<u8>>,
) -> Seq<u8> {
    piece(options.hashes_path(), "path:"@, Some(path)) + piece(options.hashes_mtime(), "mtime:"@, mtime)
        + piece(options.hashes_size(), "size:"@, size) + piece(options.hashes_contents(), "contents:"@, contents)
}

/// The optional byte text of an optional slice.
pub open spec fn opt_bytes(b: Option<&[u8]>) -> Option<Seq<u8>> {
    match b {
        Some(b) => Some(b@),
        None => None,
    }
}

fn append_label(out: &mut Vec<u8>, label: &str)
    requires
        forall|i: int| 0 <= i < label@.len() ==> (label@[i] as u32) < 128,
    ensures
        final(out)@ == old(out)@ + ascii_bytes(label@),
{
    let chars = crate::text::chars_of(label);
    let ghost start = out@;
    let mut i: usize = 0;
    while i < chars.len()
        invariant
            i <= chars@.len(),
            chars@ == label@,
            forall|k: int| 0 <= k < label@.len() ==> (label@[k] as u32) < 128,
            out@ == start + ascii_bytes(label@.take(i as int)),
        decreases chars.len() - i,
    {
        let c = chars[i];
        let code: u32 = c as u32;
        out.push(code as u8);
        assert(ascii_bytes(label@.take(i + 1)) =~= ascii_bytes(label@.take(i as int)).push(code as u8));
        i = i + 1;
    }
    assert(label@.take(label@.len() as int) =~= label@);
}

fn append_piece(out: &mut Vec<u8>, chosen: bool, label: &str, bytes: Option<&[u8]>)
    requires
        forall|i: int| 0 <= i < label@.len() ==> (label@[i] as u32) < 128,
    ensures
        final(out)@ == old(out)@ + piece(chosen, label@, opt_bytes(bytes)),
{
    if chosen {
        let ghost start = out@;
        append_label(out, label);
        if let Some(b) = bytes {
            append_bytes(out, b);
        }
        assert(out@ =~= start + piece(chosen, label@, opt_bytes(bytes)));
    } else {
        assert(out@ =~= old(out)@ + piece(chosen, label@, opt_bytes(bytes)));
    }
}

impl HashOptions {
    /// What the fingerprint of a file covers, as [`spec_hash_input`]
    /// describes: its path, and, when read, its modification time, size and
    /// contents (each in the byte form the caller gives).
    pub fn hash_input(
        &self,
        path: &[u8],
        mtime: Option<&[u8]>,
        size: Option<&[u8]>,
        contents: Option<&[u8]>,
    ) -> (input: Vec<u8>)
        ensures
            input@ == spec_hash_input(*self, path@, opt_bytes(mtime), opt_bytes(size), opt_bytes(contents)),
    {
        proof {
            reveal_strlit("path:");
            reveal_strlit("mtime:");
            reveal_strlit("size:");
            reveal_strlit("contents:");
        }
        let mut input: Vec<u8> = Vec::new();
        append_piece(&mut input, self.path, "path:", Some(path));
        append_piece(&mut input, self.mtime, "mtime:", mtime);
        append_piece(&mut input, self.size, "size:", size);
        append_piece(&mut input, self.contents, "contents:", contents);
        assert(input@ =~= spec_hash_input(*self, path@, opt_bytes(mtime), opt_bytes(size), opt_bytes(contents)));
        input
    }
}

/// The fingerprint of a file under `options`: the SHA-256 digest of what
/// [`spec_hash_input`] says it covers.
pub fn hash_file(
    options: &HashOptions,
    path: &[u8],
    mtime: Option<&[u8]>,
    size: Option<&[u8]>,
    contents: Option<&[u8]>,
) -> (f: Fingerprint)
    ensures
        f@ == sha256(spec_hash_input(*options, path@, opt_bytes(mtime), opt_bytes(size), opt_bytes(contents))),
{
    let input = options.hash_input(path, mtime, size, contents);
    Fingerprint::of_content(input.as_slice())
}

/// The hexadecimal form of a digest has two characters per byte, each a
/// lower-case hexadecimal digit.
pub proof fn law_hex_digest_shape(bytes: Seq<u8>)
    ensures
        spec_hex(bytes).len() == 2 * bytes.len(),
        forall|i: int|
            0 <= i < spec_hex(bytes).len() ==> ('0' <= #[trigger] spec_hex(bytes)[i] <= '9') || ('a'
                <= spec_hex(bytes)[i] <= 'f'),
    decreases bytes.len(),
{
    if bytes.len() > 0 {
        law_hex_digest_shape(bytes.drop_last());
        let h = spec_hex(bytes);
        let p = spec_hex(bytes.drop_last());
        let hi = (bytes.last() / 16) as nat;
        let lo = (bytes.last() % 16) as nat;
        assert(hi < 16 && lo < 16);
        assert forall|i: int| 0 <= i < h.len() implies ('0' <= #[trigger] h[i] <= '9') || ('a' <= h[i] <= 'f') by {
            if i < p.len() {
                assert(h[i] == p[i]);
            } else {
                let d = if i == p.len() { hi } else { lo };
                assert(h[i] == hex_digit(d));
                if d < 10 {
                    assert(((d + '0' as nat) as u32) as char as int == d + 48);
                } else {
                    assert(((d - 10 + 'a' as nat) as u32) as char as int == d - 10 + 97);
                }
            }
        }
    }
}

/// What storing a fingerprint writes into an empty sink, loading reads back
/// as the same fingerprint.
pub proof fn law_store_then_load(f: Fingerprint, stored: Seq<u8>, loaded: Fingerprint)
    requires
        stored == Seq::<u8>::empty() + f@,
        loaded@ == stored,
    ensures
        loaded@ == f@,
{
    assert(Seq::<u8>::empty() + f@ =~= f@);
}

/// The fingerprint of a file covers only what the options choose: with
/// nothing chosen it is the digest of nothing, whatever the file.
pub proof fn law_hash_nothing(
    path: Seq<u8>,
    mtime: Option<Seq<u8>>,
    size: Option<Seq<u8>>,
    contents: Option<Seq<u8>>,
    options: HashOptions,
)
    requires
        !options.hashes_path() && !options.hashes_mtime() && !options.hashes_size() && !options.hashes_contents(),
    ensures
        spec_hash_input(options, path, mtime, size, contents) == Seq::<u8>::empty(),
{
    assert(spec_hash_input(options, path, mtime, size, contents) =~= Seq::<u8>::empty());
}

} // verus!
