//! The chunked file-download state machine.
//!
//! A download is a stop-and-wait exchange with one device. The client
//! subscribes to the device's download-status topic and publishes a start
//! command; the device then interleaves JSON status messages with raw
//! binary chunks. A payload that parses as a JSON object with well-typed
//! fields is a status message; any decode failure, not just a missing
//! field, makes the payload a chunk, so that a chunk which merely looks
//! like JSON is never misrouted as a status message. A status message
//! may carry a `FileDownload` status word (`Started`, `Aborted`,
//! `Done` or an error code) and metadata fields (`File`, `Size`, `Id`,
//! `Type`, `Md5`). Any other payload is a chunk and is appended to the
//! accumulated data. After each ordinary status or chunk the client
//! requests the next chunk with the literal token `?`; after `Started` and
//! after the `Md5` metadata message it must not, because the device already
//! has a message on the way. On `Done` the artifact is validated by length
//! and md5 digest.

use vstd::prelude::*;
use vstd::string::StrSliceExecFns;

use md5::Digest;

use crate::error::DownloadError;
use crate::topic::device_topic;
use crate::topic::str_eq;

verus! {

/// The transfer type the start command asks for: a configuration backup.
pub const TRANSFER_TYPE: u8 = 2;

/// The transfer mode the start command asks for: binary chunks.
pub const BINARY_MODE: u8 = 1;

/// The status topic of a device's file downloads.
pub fn status_topic(device: &str) -> (r: String)
    ensures
        r@ == "stat/"@ + device@ + "/FILEDOWNLOAD"@,
{
    device_topic("stat/", device, "/FILEDOWNLOAD")
}

/// The command topic of a device's file downloads.
pub fn command_topic(device: &str) -> (r: String)
    ensures
        r@ == "cmnd/"@ + device@ + "/FILEDOWNLOAD"@,
{
    device_topic("cmnd/", device, "/FILEDOWNLOAD")
}

/// The literal payload that requests the next chunk.
pub fn chunk_request_token() -> (r: &'static str)
    ensures
        r@ == "?"@,
{
    "?"
}

/// The fields a download status message may carry.
#[derive(Debug, Clone)]
pub struct StatusMessage {
    /// The transfer status word: `Started`, `Aborted`, `Done` or an error code
    pub file_download: Option<String>,
    /// The name of the file being transferred
    pub file: Option<String>,
    /// The declared size of the file in bytes
    pub size: Option<u32>,
    /// The transfer identifier the device chose
    pub id: Option<u32>,
    /// The declared file type
    pub ty: Option<u8>,
    /// The declared md5 digest of the file, as hexadecimal digits
    pub md5: Option<String>,
}

/// The mathematical content of a [`StatusMessage`].
pub struct StatusView {
    /// The transfer status word
    pub file_download: Option<Seq<char>>,
    /// The file name
    pub file: Option<Seq<char>>,
    /// The declared size
    pub size: Option<u32>,
    /// The transfer identifier
    pub id: Option<u32>,
    /// The declared file type
    pub ty: Option<u8>,
    /// The declared digest, as hexadecimal digits
    pub md5: Option<Seq<char>>,
}

impl View for StatusMessage {
    type V = StatusView;

    open spec fn view(&self) -> StatusView {
        StatusView {
            file_download: match self.file_download {
                Some(s) => Some(s@),
                None => None,
            },
            file: match self.file {
                Some(s) => Some(s@),
                None => None,
            },
            size: self.size,
            id: self.id,
            ty: self.ty,
            md5: match self.md5 {
                Some(s) => Some(s@),
                None => None,
            },
        }
    }
}

/// One field of a JSON object, as the download protocol reads it: a
/// string, a number with an unsigned integral value, an explicit null, or
/// anything else.
#[derive(Debug, Clone)]
pub enum JsonField {
    /// A JSON string
    Text(String),
    /// A JSON number with an unsigned integral value
    Number(u64),
    /// A JSON null
    Null,
    /// Any other JSON value
    Other,
}

/// The mathematical content of a [`JsonField`].
pub enum JsonFieldView {
    /// A JSON string
    Text(Seq<char>),
    /// A JSON number with an unsigned integral value
    Number(u64),
    /// A JSON null
    Null,
    /// Any other JSON value
    Other,
}

impl View for JsonField {
    type V = JsonFieldView;

    open spec fn view(&self) -> JsonFieldView {
        match self {
            JsonField::Text(s) => JsonFieldView::Text(s@),
            JsonField::Number(n) => JsonFieldView::Number(*n),
            JsonField::Null => JsonFieldView::Null,
            JsonField::Other => JsonFieldView::Other,
        }
    }
}

/// The mathematical content of a parsed field list.
pub open spec fn fields_view(fs: Seq<(String, JsonField)>) -> Seq<(Seq<char>, JsonFieldView)> {
    fs.map_values(|p: (String, JsonField)| (p.0@, p.1@))
}

/// The fields a download payload holds when it is a JSON object, and
/// nothing when it is not (such a payload is a raw chunk). The exact parse
/// is the JSON library's; it depends on the payload bytes alone.
pub uninterp spec fn parsed_fields(payload: Seq<u8>) -> Option<Seq<(Seq<char>, JsonFieldView)>>;

/// Relies on serde_json: whether a payload parses as a JSON object, and
/// which fields that object holds, depends on the payload bytes alone.
#[verifier::external_body]
fn parse_fields(payload: &[u8]) -> (r: Option<Vec<(String, JsonField)>>)
    ensures
        match r {
            Some(f) => parsed_fields(payload@) == Some(fields_view(f@)),
            None => parsed_fields(payload@) is None,
        },
{
    let v = serde_json::from_slice::<serde_json::Value>(payload).ok()?;
    let o = v.as_object()?;
    Some(o.iter().map(|(k, x)| (k.clone(), match x {
        serde_json::Value::String(s) => JsonField::Text(s.clone()),
        serde_json::Value::Number(n) => n.as_u64().map_or(JsonField::Other, JsonField::Number),
        serde_json::Value::Null => JsonField::Null,
        _ => JsonField::Other,
    })).collect())
}

/// The value of the first field named `key`.
pub open spec fn spec_lookup(fs: Seq<(Seq<char>, JsonFieldView)>, key: Seq<char>) -> Option<
    JsonFieldView,
>
    decreases fs.len(),
{
    if fs.len() == 0 {
        None
    } else if fs[0].0 == key {
        Some(fs[0].1)
    } else {
        spec_lookup(fs.drop_first(), key)
    }
}

/// An optional string field: absent or null counts as missing, and any
/// other type fails the whole decode.
pub open spec fn spec_str_field(fs: Seq<(Seq<char>, JsonFieldView)>, key: Seq<char>) -> Option<
    Option<Seq<char>>,
> {
    match spec_lookup(fs, key) {
        None => Some(None),
        Some(JsonFieldView::Null) => Some(None),
        Some(JsonFieldView::Text(s)) => Some(Some(s)),
        Some(JsonFieldView::Number(_)) => None,
        Some(JsonFieldView::Other) => None,
    }
}

/// An optional unsigned field no larger than `max`: absent or null counts
/// as missing, and any other type, or a value over `max`, fails the whole
/// decode.
pub open spec fn spec_num_field(
    fs: Seq<(Seq<char>, JsonFieldView)>,
    key: Seq<char>,
    max: u64,
) -> Option<Option<u64>> {
    match spec_lookup(fs, key) {
        None => Some(None),
        Some(JsonFieldView::Null) => Some(None),
        Some(JsonFieldView::Number(n)) => if n <= max {
            Some(Some(n))
        } else {
            None
        },
        Some(JsonFieldView::Text(_)) => None,
        Some(JsonFieldView::Other) => None,
    }
}

/// The status message a field list decodes to, when every known field that
/// is present has the right type and range; otherwise nothing, and the
/// payload is treated as a raw chunk.
pub open spec fn spec_status_from_fields(fs: Seq<(Seq<char>, JsonFieldView)>) -> Option<
    StatusView,
> {
    match (
        spec_str_field(fs, "FileDownload"@),
        spec_str_field(fs, "File"@),
        spec_num_field(fs, "Size"@, 0xFFFF_FFFF),
        spec_num_field(fs, "Id"@, 0xFFFF_FFFF),
        spec_num_field(fs, "Type"@, 0xFF),
        spec_str_field(fs, "Md5"@),
    ) {
        (Some(fd), Some(f), Some(sz), Some(id), Some(ty), Some(md)) => Some(
            StatusView {
                file_download: fd,
                file: f,
                size: match sz {
                    Some(n) => Some(n as u32),
                    None => None,
                },
                id: match id {
                    Some(n) => Some(n as u32),
                    None => None,
                },
                ty: match ty {
                    Some(n) => Some(n as u8),
                    None => None,
                },
                md5: md,
            },
        ),
        _ => None,
    }
}

/// The status message a whole payload decodes to: the payload must be a
/// JSON object and its known fields must be well-typed; anything else is a
/// raw chunk.
pub open spec fn spec_payload_status(payload: Seq<u8>) -> Option<StatusView> {
    match parsed_fields(payload) {
        Some(fs) => spec_status_from_fields(fs),
        None => None,
    }
}

proof fn lemma_lookup_from(fs: Seq<(Seq<char>, JsonFieldView)>, key: Seq<char>, i: int)
    requires
        0 <= i <= fs.len(),
        forall|k: int| 0 <= k < i ==> fs[k].0 != key,
    ensures
        spec_lookup(fs, key) == spec_lookup(fs.skip(i), key),
    decreases i,
{
    if i > 0 {
        lemma_lookup_from(fs.drop_first(), key, i - 1);
        assert(fs.drop_first().skip(i - 1) =~= fs.skip(i));
    } else {
        assert(fs.skip(0) =~= fs);
    }
}

fn lookup<'a>(fields: &'a Vec<(String, JsonField)>, key: &str) -> (r: Option<&'a JsonField>)
    ensures
        match r {
            Some(f) => spec_lookup(fields_view(fields@), key@) == Some(f@),
            None => spec_lookup(fields_view(fields@), key@) is None,
        },
{
    let n = fields.len();
    let mut i: usize = 0;
    while i < n
        invariant
            0 <= i <= n,
            n == fields@.len(),
            forall|k: int| 0 <= k < i ==> fields_view(fields@)[k].0 != key@,
        decreases n - i,
    {
        if str_eq(fields[i].0.as_str(), key) {
            proof {
                lemma_lookup_from(fields_view(fields@), key@, i as int);
                assert(fields_view(fields@).skip(i as int)[0] == fields_view(fields@)[i as int]);
            }
            return Some(&fields[i].1);
        }
        i = i + 1;
    }
    proof {
        lemma_lookup_from(fields_view(fields@), key@, n as int);
    }
    None
}

/// Decodes a parsed field list into a status message. A known field that is
/// present with the wrong type, or a number out of its field's range, fails
/// the decode: the caller then treats the payload as a raw chunk.
pub fn status_from_fields(fields: &Vec<(String, JsonField)>) -> (r: Option<StatusMessage>)
    ensures
        match spec_status_from_fields(fields_view(fields@)) {
            Some(mv) => match r {
                Some(m) => m@ == mv,
                None => false,
            },
            None => r is None,
        },
{
    let file_download = match lookup(fields, "FileDownload") {
        None => None,
        Some(JsonField::Text(s)) => Some(s.clone()),
        Some(JsonField::Null) => None,
        Some(_) => {
            return None;
        },
    };
    let file = match lookup(fields, "File") {
        None => None,
        Some(JsonField::Text(s)) => Some(s.clone()),
        Some(JsonField::Null) => None,
        Some(_) => {
            return None;
        },
    };
    let size = match lookup(fields, "Size") {
        None => None,
        Some(JsonField::Number(x)) => {
            if *x <= 0xFFFF_FFFF {
                Some(*x as u32)
            } else {
                return None;
            }
        },
        Some(JsonField::Null) => None,
        Some(_) => {
            return None;
        },
    };
    let id = match lookup(fields, "Id") {
        None => None,
        Some(JsonField::Number(x)) => {
            if *x <= 0xFFFF_FFFF {
                Some(*x as u32)
            } else {
                return None;
            }
        },
        Some(JsonField::Null) => None,
        Some(_) => {
            return None;
        },
    };
    let ty = match lookup(fields, "Type") {
        None => None,
        Some(JsonField::Number(x)) => {
            if *x <= 0xFF {
                Some(*x as u8)
            } else {
                return None;
            }
        },
        Some(JsonField::Null) => None,
        Some(_) => {
            return None;
        },
    };
    let md5 = match lookup(fields, "Md5") {
        None => None,
        Some(JsonField::Text(s)) => Some(s.clone()),
        Some(JsonField::Null) => None,
        Some(_) => {
            return None;
        },
    };
    Some(StatusMessage { file_download, file, size, id, ty, md5 })
}

/// The md5 digest of a byte sequence. The digest itself is the hash
/// library's; it is a pure 16-byte function of the input.
pub uninterp spec fn md5_of(data: Seq<u8>) -> Seq<u8>;

/// Relies on the md-5 crate: the digest is a function of the input bytes
/// alone, 16 bytes long by its result type.
#[verifier::external_body]
fn md5_digest(data: &[u8]) -> (r: [u8; 16])
    ensures
        r@ == md5_of(data@),
{
    md5::Md5::digest(data).into()
}

/// A hexadecimal digit, upper or lower case.
pub open spec fn is_hex_digit(c: char) -> bool {
    ('0' <= c && c <= '9') || ('a' <= c && c <= 'f') || ('A' <= c && c <= 'F')
}

/// The value of one hexadecimal digit.
pub open spec fn hex_val(c: char) -> int {
    if '0' <= c && c <= '9' {
        c as int - 48
    } else if 'a' <= c && c <= 'f' {
        c as int - 87
    } else {
        c as int - 55
    }
}

/// The bytes denoted by a string of hexadecimal digit pairs.
pub open spec fn spec_hex_bytes(s: Seq<char>) -> Seq<u8> {
    Seq::new(s.len() / 2, |i: int| (hex_val(s[2 * i]) * 16 + hex_val(s[2 * i + 1])) as u8)
}

/// Relies on hex::decode_to_slice: decoding succeeds exactly on a string of
/// 32 hexadecimal digits, and yields the 16 bytes those digit pairs denote.
#[verifier::external_body]
fn decode_md5_hex(s: &str) -> (r: Option<[u8; 16]>)
    ensures
        (r is Some) <==> (s@.len() == 32 && (forall|i: int| 0 <= i < 32 ==> is_hex_digit(s@[i]))),
        match r {
            Some(d) => d@ == spec_hex_bytes(s@),
            None => true,
        },
{
    let mut buf = [0u8; 16];
    match hex::decode_to_slice(s, &mut buf) {
        Ok(()) => Some(buf),
        Err(_) => None,
    }
}

/// The state of one in-flight download.
#[derive(Debug)]
pub struct DownloadState {
    /// The name the device declared for the file
    pub name: String,
    /// The size the device declared, in bytes
    pub size: u32,
    /// The file type the device declared
    pub ty: u8,
    /// The transfer identifier the device declared
    pub id: u32,
    /// The chunk bytes accumulated so far
    pub data: Vec<u8>,
    /// The md5 digest the device declared
    pub md5: [u8; 16],
}

/// The mathematical content of a [`DownloadState`].
pub struct DownloadStateView {
    /// The declared file name
    pub name: Seq<char>,
    /// The declared size
    pub size: u32,
    /// The declared file type
    pub ty: u8,
    /// The transfer identifier
    pub id: u32,
    /// The accumulated bytes
    pub data: Seq<u8>,
    /// The declared digest
    pub md5: Seq<u8>,
}

impl View for DownloadState {
    type V = DownloadStateView;

    open spec fn view(&self) -> DownloadStateView {
        DownloadStateView {
            name: self.name@,
            size: self.size,
            ty: self.ty,
            id: self.id,
            data: self.data@,
            md5: self.md5@,
        }
    }
}

/// The state a download starts from: everything empty or zero.
pub open spec fn initial_state() -> DownloadStateView {
    DownloadStateView {
        name: Seq::empty(),
        size: 0,
        ty: 0,
        id: 0,
        data: Seq::empty(),
        md5: Seq::new(16, |i: int| 0u8),
    }
}

/// What the engine does after processing one message.
#[derive(Debug, Clone, PartialEq, Eq)]
pub enum DownloadStep {
    /// Wait for the device's next message without requesting anything:
    /// another message is already on the way
    AwaitNext,
    /// Request the next chunk with the literal token `?`
    RequestChunk,
    /// The device reported `Done`: validate the accumulated artifact
    Completed,
    /// The transfer ended with the given error
    Failed(DownloadError),
}

/// The metadata updates a status message applies to the state: each present
/// field overwrites its counterpart (the digest decodes separately).
pub open spec fn spec_status_fields(s: DownloadStateView, m: StatusView) -> DownloadStateView {
    let s1 = match m.file {
        Some(n) => DownloadStateView { name: n, ..s },
        None => s,
    };
    let s2 = match m.size {
        Some(v) => DownloadStateView { size: v, ..s1 },
        None => s1,
    };
    let s3 = match m.id {
        Some(v) => DownloadStateView { id: v, ..s2 },
        None => s2,
    };
    match m.ty {
        Some(v) => DownloadStateView { ty: v, ..s3 },
        None => s3,
    }
}

/// What one status message does to the download state and what the engine
/// does next: the `FileDownload` status word decides first (`Started` waits,
/// `Aborted` and the error codes fail, `Done` completes, anything else is
/// ignored); then the metadata fields are applied; a message carrying a
/// digest waits instead of requesting the next chunk, and a digest that is
/// not 32 hexadecimal digits fails the transfer.
pub open spec fn spec_apply_status(s: DownloadStateView, m: StatusView) -> (
    DownloadStateView,
    DownloadStep,
) {
    if m.file_download == Some("Started"@) {
        (s, DownloadStep::AwaitNext)
    } else if m.file_download == Some("Aborted"@) {
        (s, DownloadStep::Failed(DownloadError::DownloadAborted))
    } else if m.file_download == Some("Error 1"@) {
        (s, DownloadStep::Failed(DownloadError::InvalidPassword))
    } else if m.file_download == Some("Error 2"@) {
        (s, DownloadStep::Failed(DownloadError::BadChunkSize))
    } else if m.file_download == Some("Error 3"@) {
        (s, DownloadStep::Failed(DownloadError::InvalidFileType))
    } else if m.file_download == Some("Done"@) {
        (s, DownloadStep::Completed)
    } else {
        let s1 = spec_status_fields(s, m);
        match m.md5 {
            Some(h) => if h.len() == 32 && (forall|i: int| 0 <= i < 32 ==> is_hex_digit(h[i])) {
                (DownloadStateView { md5: spec_hex_bytes(h), ..s1 }, DownloadStep::AwaitNext)
            } else {
                (s1, DownloadStep::Failed(DownloadError::InvalidHash))
            },
            None => (s1, DownloadStep::RequestChunk),
        }
    }
}

/// A verified download artifact: the declared name, the accumulated bytes,
/// and the digest they were checked against.
#[derive(Debug, Clone)]
pub struct DownloadedFile {
    /// The name the device declared
    pub name: String,
    /// The file's bytes
    pub data: Vec<u8>,
    /// The md5 digest of the bytes
    pub md5: [u8; 16],
}

fn bytes16_eq(a: &[u8; 16], b: &[u8; 16]) -> (r: bool)
    ensures
        r == (a@ == b@),
{
    let mut i: usize = 0;
    while i < 16
        invariant
            0 <= i <= 16,
            forall|k: int| 0 <= k < i ==> a@[k] == b@[k],
        decreases 16 - i,
    {
        if a[i] != b[i] {
            return false;
        }
        i = i + 1;
    }
    proof {
        assert(a@ =~= b@);
    }
    true
}

impl DownloadState {
    /// The state a download starts from.
    pub fn new() -> (r: DownloadState)
        ensures
            r@ == initial_state(),
    {
        let zero: [u8; 16] = [0;16];
        let r = DownloadState {
            name: String::new(),
            size: 0,
            ty: 0,
            id: 0,
            data: Vec::new(),
            md5: zero,
        };
        proof {
            assert(r@.md5 =~= initial_state().md5);
            assert(r@ == initial_state());
        }
        r
    }

    /// Applies one parsed status message to the state and decides what to
    /// do next.
    pub fn apply_status(&mut self, m: &StatusMessage) -> (r: DownloadStep)
        ensures
            final(self)@ == spec_apply_status(old(self)@, m@).0,
            r == spec_apply_status(old(self)@, m@).1,
    {
        if let Some(fd) = &m.file_download {
            if str_eq(fd.as_str(), "Started") {
                return DownloadStep::AwaitNext;
            }
            if str_eq(fd.as_str(), "Aborted") {
                return DownloadStep::Failed(DownloadError::DownloadAborted);
            }
            if str_eq(fd.as_str(), "Error 1") {
                return DownloadStep::Failed(DownloadError::InvalidPassword);
            }
            if str_eq(fd.as_str(), "Error 2") {
                return DownloadStep::Failed(DownloadError::BadChunkSize);
            }
            if str_eq(fd.as_str(), "Error 3") {
                return DownloadStep::Failed(DownloadError::InvalidFileType);
            }
            if str_eq(fd.as_str(), "Done") {
                return DownloadStep::Completed;
            }
        }
        if let Some(n) = &m.file {
            self.name = n.clone();
        }
        if let Some(v) = m.size {
            self.size = v;
        }
        if let Some(v) = m.id {
            self.id = v;
        }
        if let Some(v) = m.ty {
            self.ty = v;
        }
        match &m.md5 {
            Some(h) => match decode_md5_hex(h.as_str()) {
                Some(d) => {
                    self.md5 = d;
                    DownloadStep::AwaitNext
                },
                None => DownloadStep::Failed(DownloadError::InvalidHash),
            },
            None => DownloadStep::RequestChunk,
        }
    }

    /// Appends one raw chunk to the accumulated data and requests the next.
    pub fn apply_chunk(&mut self, payload: &[u8]) -> (r: DownloadStep)
        ensures
            final(self)@ == (DownloadStateView { data: old(self)@.data + payload@, ..old(self)@ }),
            r == DownloadStep::RequestChunk,
    {
        let n = payload.len();
        let mut i: usize = 0;
        while i < n
            invariant
                0 <= i <= n,
                n == payload@.len(),
                self@ == (DownloadStateView {
                    data: old(self)@.data + payload@.take(i as int),
                    ..old(self)@
                }),
            decreases n - i,
        {
            self.data.push(payload[i]);
            proof {
                assert(old(self)@.data + payload@.take(i + 1) =~= (old(self)@.data
                    + payload@.take(i as int)).push(payload@[i as int]));
            }
            i = i + 1;
        }
        proof {
            assert(payload@.take(n as int) =~= payload@);
        }
        DownloadStep::RequestChunk
    }

    /// Feeds one bus payload to the state machine: a payload that decodes
    /// as a status message is applied as one, anything else is a raw chunk.
    pub fn apply_message(&mut self, payload: &[u8]) -> (r: DownloadStep)
        ensures
            match spec_payload_status(payload@) {
                Some(mv) => final(self)@ == spec_apply_status(old(self)@, mv).0 && r
                    == spec_apply_status(old(self)@, mv).1,
                None => final(self)@ == (DownloadStateView {
                    data: old(self)@.data + payload@,
                    ..old(self)@
                }) && r == DownloadStep::RequestChunk,
            },
    {
        let status = match parse_fields(payload) {
            Some(fields) => status_from_fields(&fields),
            None => None,
        };
        match status {
            Some(m) => self.apply_status(&m),
            None => self.apply_chunk(payload),
        }
    }

    /// Validates the accumulated artifact once the device reported `Done`.
    ///
    /// Succeeds exactly when the accumulated byte count equals the declared
    /// size and the bytes hash to the declared digest; otherwise the
    /// mismatch is returned with both the expected and the observed value.
    pub fn finish(self) -> (r: Result<DownloadedFile, DownloadError>)
        ensures
            r is Ok <==> (self@.data.len() == self@.size && md5_of(self@.data) == self@.md5),
            match r {
                Ok(f) => f.name@ == self@.name && f.data@ == self@.data && f.md5@ == self@.md5
                    && f.md5@ == md5_of(f.data@),
                Err(e) => match e {
                    DownloadError::MismatchedLength(expected, got) => self@.data.len()
                        != self@.size && expected == self@.size && got == self@.data.len() as u32,
                    DownloadError::MismatchedHash(expected, got) => self@.data.len() == self@.size
                        && expected@ == self@.md5 && got@ == md5_of(self@.data) && got@
                        != expected@,
                    _ => false,
                },
            },
    {
        let len = self.data.len();
        if len != self.size as usize {
            return Err(DownloadError::MismatchedLength(self.size, len as u32));
        }
        let digest = md5_digest(self.data.as_slice());
        if !bytes16_eq(&digest, &self.md5) {
            return Err(DownloadError::MismatchedHash(self.md5, digest));
        }
        Ok(DownloadedFile { name: self.name, data: self.data, md5: self.md5 })
    }
}

} // verus!
