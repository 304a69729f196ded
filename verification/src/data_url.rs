//! Data URLs: their parts, the temporary files for them, and the hash by which
//! they are known.
use crate::external::{
    base64_char, base64_decode, base64_problem, base64_text, base64_value, hex_digit, random_name,
    sha256, sha256_digest, url_safe,
};
use crate::text::{
    begins_with, contains_text, first_index, lemma_first_index, occurs_at, pieces, same_text,
    split, starts_with, strip_prefix, trim_start_matches, views, without_leading,
};
use crate::types::opt_view;
use vstd::prelude::*;
use vstd::utf8::{encode_utf8, is_char_boundary};

verus! {

/// A file that is to be written: its name and its contents.
#[derive(Debug, PartialEq, Eq)]
pub struct TempFile {
    /// The name of the file.
    pub name: String,
    /// The bytes of the file.
    pub contents: Vec<u8>,
}

/// The value of a `TempFile`.
#[verifier::ext_equal]
pub struct TempFileView {
    /// The name of the file.
    pub name: Seq<char>,
    /// The bytes of the file.
    pub contents: Seq<u8>,
}

impl View for TempFile {
    type V = TempFileView;

    open spec fn view(&self) -> TempFileView {
        TempFileView { name: self.name@, contents: self.contents@ }
    }
}

/// The extension of the files of a MIME type.
pub open spec fn extension_of(mime: Seq<char>) -> Option<Seq<char>> {
    if mime == "image/jpeg"@ || mime == "image/jpg"@ {
        Some("jpeg"@)
    } else if mime == "image/png"@ {
        Some("png"@)
    } else if mime == "image/gif"@ {
        Some("gif"@)
    } else if mime == "image/webp"@ {
        Some("webp"@)
    } else if mime == "image/svg+xml"@ {
        Some("svg"@)
    } else if mime == "image/bmp"@ {
        Some("bmp"@)
    } else if mime == "image/tiff"@ {
        Some("tiff"@)
    } else if mime == "application/pdf"@ {
        Some("pdf"@)
    } else if mime == "text/plain"@ {
        Some("txt"@)
    } else if mime == "text/csv"@ {
        Some("csv"@)
    } else if mime == "application/json"@ {
        Some("json"@)
    } else if mime == "application/xml"@ || mime == "text/xml"@ {
        Some("xml"@)
    } else if mime == "application/zip"@ {
        Some("zip"@)
    } else if mime == "application/x-tar"@ {
        Some("tar"@)
    } else if mime == "application/x-gzip"@ {
        Some("gz"@)
    } else if mime == "audio/mpeg"@ {
        Some("mp3"@)
    } else if mime == "audio/wav"@ {
        Some("wav"@)
    } else if mime == "audio/ogg"@ {
        Some("ogg"@)
    } else if mime == "video/mp4"@ {
        Some("mp4"@)
    } else if mime == "video/mpeg"@ {
        Some("mpeg"@)
    } else if mime == "video/quicktime"@ {
        Some("mov"@)
    } else {
        None
    }
}

/// The extension of the files of a MIME type.
pub fn mime_type_to_extension(mime_type: &str) -> (r: Option<&'static str>)
    ensures
        opt_view(r) == extension_of(mime_type@),
{
    if same_text(mime_type, "image/jpeg") || same_text(mime_type, "image/jpg") {
        Some("jpeg")
    } else if same_text(mime_type, "image/png") {
        Some("png")
    } else if same_text(mime_type, "image/gif") {
        Some("gif")
    } else if same_text(mime_type, "image/webp") {
        Some("webp")
    } else if same_text(mime_type, "image/svg+xml") {
        Some("svg")
    } else if same_text(mime_type, "image/bmp") {
        Some("bmp")
    } else if same_text(mime_type, "image/tiff") {
        Some("tiff")
    } else if same_text(mime_type, "application/pdf") {
        Some("pdf")
    } else if same_text(mime_type, "text/plain") {
        Some("txt")
    } else if same_text(mime_type, "text/csv") {
        Some("csv")
    } else if same_text(mime_type, "application/json") {
        Some("json")
    } else if same_text(mime_type, "application/xml") || same_text(mime_type, "text/xml") {
        Some("xml")
    } else if same_text(mime_type, "application/zip") {
        Some("zip")
    } else if same_text(mime_type, "application/x-tar") {
        Some("tar")
    } else if same_text(mime_type, "application/x-gzip") {
        Some("gz")
    } else if same_text(mime_type, "audio/mpeg") {
        Some("mp3")
    } else if same_text(mime_type, "audio/wav") {
        Some("wav")
    } else if same_text(mime_type, "audio/ogg") {
        Some("ogg")
    } else if same_text(mime_type, "video/mp4") {
        Some("mp4")
    } else if same_text(mime_type, "video/mpeg") {
        Some("mpeg")
    } else if same_text(mime_type, "video/quicktime") {
        Some("mov")
    } else {
        None
    }
}

/// What stands between the MIME type and the data of a data URL.
pub open spec fn separator() -> Seq<char> {
    ";base64,"@
}

/// The value of a result whose parts are texts.
pub open spec fn parts_view(r: Result<(String, String), String>) -> Result<
    (Seq<char>, Seq<char>),
    Seq<char>,
> {
    match r {
        Ok((a, b)) => Ok((a@, b@)),
        Err(e) => Err(e@),
    }
}

/// The MIME type and the encoded data of a data URL, or what is wrong with it.
pub open spec fn data_url_parts(url: Seq<char>) -> Result<(Seq<char>, Seq<char>), Seq<char>> {
    let parts = pieces(url, separator());
    if !begins_with(url, "data:"@) {
        Err("Invalid data URL format"@)
    } else if parts.len() != 2 {
        Err("Invalid data URL format: missing base64 separator"@)
    } else if begins_with(parts[0], "data:"@) {
        Ok((parts[0].skip("data:"@.len() as int), parts[1]))
    } else {
        Ok((parts[0], parts[1]))
    }
}

/// Takes a data URL apart.
pub fn split_data_url(data_url: &str) -> (r: Result<(String, String), String>)
    ensures
        parts_view(r) == data_url_parts(data_url@),
{
    if !starts_with(data_url, "data:") {
        return Err("Invalid data URL format".to_owned());
    }
    proof {
        reveal_strlit(";base64,");
    }
    let parts = split(data_url, ";base64,");
    let ghost texts = pieces(data_url@, separator());
    assert(views(parts@) == texts);
    if parts.len() != 2 {
        return Err("Invalid data URL format: missing base64 separator".to_owned());
    }
    assert(texts[0] == parts@[0]@ && texts[1] == parts@[1]@);
    let mime_type = match strip_prefix(&parts[0], "data:") {
        Some(mime_type) => mime_type,
        None => parts[0].clone(),
    };
    Ok((mime_type, parts[1].clone()))
}

/// The extension of the file for a MIME type.
pub open spec fn file_extension(mime: Seq<char>) -> Seq<char> {
    match extension_of(mime) {
        Some(ext) => ext,
        None => "bin"@,
    }
}

/// The name of the file with a given random part.
pub open spec fn temp_name(random: Seq<char>, ext: Seq<char>) -> Seq<char> {
    "poe2openai_"@ + random + "."@ + ext
}

/// The value of a result that holds a file.
pub open spec fn file_view(r: Result<TempFile, String>) -> Result<TempFileView, Seq<char>> {
    match r {
        Ok(file) => Ok(file@),
        Err(e) => Err(e@),
    }
}

/// The file for data of a MIME type, given what the decoder made of the data
/// and the random part of the name.
pub open spec fn temp_file_with(
    mime: Seq<char>,
    decoded: Result<Seq<u8>, Seq<char>>,
    random: Seq<char>,
) -> Result<TempFileView, Seq<char>> {
    match decoded {
        Ok(contents) => Ok(
            TempFileView { name: temp_name(random, file_extension(mime)), contents },
        ),
        Err(e) => Err("Base64 decoding failed: "@ + e),
    }
}

/// What decoding a text in base64 gives.
pub open spec fn decoded(text: Seq<char>) -> Result<Seq<u8>, Seq<char>> {
    match base64_value(text) {
        Some(bytes) => Ok(bytes),
        None => Err(base64_problem(text)),
    }
}

/// The file for a data URL, given the random part of its name.
pub open spec fn temp_file_for(url: Seq<char>, random: Seq<char>) -> Result<TempFileView, Seq<char>> {
    match data_url_parts(url) {
        Ok((mime, data)) => temp_file_with(mime, decoded(data), random),
        Err(e) => Err(e),
    }
}

/// A random part of a file name: sixteen characters out of letters, digits,
/// `_` and `-`.
pub open spec fn random_part(random: Seq<char>) -> bool {
    random.len() == 16 && forall|i: int| 0 <= i < 16 ==> url_safe(#[trigger] random[i])
}

/// The value of what a decoder returns.
pub open spec fn decoded_view(r: Result<Vec<u8>, String>) -> Result<Seq<u8>, Seq<char>> {
    match r {
        Ok(bytes) => Ok(bytes@),
        Err(e) => Err(e@),
    }
}

/// Makes the file for data of a MIME type, given what the decoder made of the
/// data and the random part of the name.
pub fn make_temp_file(mime_type: &str, decoded: Result<Vec<u8>, String>, random: &str) -> (r: Result<
    TempFile,
    String,
>)
    ensures
        file_view(r) == temp_file_with(mime_type@, decoded_view(decoded), random@),
{
    match decoded {
        Ok(contents) => {
            let ext = match mime_type_to_extension(mime_type) {
                Some(ext) => ext,
                None => "bin",
            };
            let mut name = "poe2openai_".to_owned();
            name.append(random);
            name.append(".");
            name.append(ext);
            Ok(TempFile { name, contents })
        },
        Err(e) => {
            let mut message = "Base64 decoding failed: ".to_owned();
            message.append(&e);
            Err(message)
        },
    }
}

/// Makes the file for a data URL, given the random part of its name.
pub fn data_url_to_temp_file(data_url: &str, random: &str) -> (r: Result<TempFile, String>)
    ensures
        file_view(r) == temp_file_for(data_url@, random@),
{
    match split_data_url(data_url) {
        Ok((mime_type, data)) => {
            let decoded = base64_decode(&data);
            make_temp_file(&mime_type, decoded, random)
        },
        Err(e) => Err(e),
    }
}

/// Makes the file for a data URL, under a name that chance has a part in.
pub fn handle_data_url_to_temp_file(data_url: &str) -> (r: Result<TempFile, String>)
    ensures
        exists|random: Seq<char>|
            random_part(random) && file_view(r) == #[trigger] temp_file_for(data_url@, random),
{
    let random = random_name(16);
    assert(random_part(random@));
    data_url_to_temp_file(data_url, &random)
}

/// The MIME type that is stated when the file for an image is uploaded.
pub open spec fn upload_mime(url: Seq<char>) -> Option<Seq<char>> {
    if begins_with(url, "data:"@) {
        Some(without_leading(pieces(url, separator())[0], "data:"@))
    } else {
        None
    }
}

/// The MIME type that is stated when the file for an image is uploaded.
pub fn mime_type_for_upload(data_url: &str) -> (r: Option<String>)
    ensures
        opt_view(r) == upload_mime(data_url@),
{
    if starts_with(data_url, "data:") {
        proof {
            reveal_strlit(";base64,");
            reveal_strlit("data:");
        }
        let parts = split(data_url, ";base64,");
        assert(views(parts@)[0] == parts@[0]@);
        Some(trim_start_matches(&parts[0], "data:"))
    } else {
        None
    }
}

/// The part of a data URL that is hashed: what follows the first separator up
/// to the next one, or the whole text where there is no separator.
pub open spec fn hashed_part(s: Seq<char>) -> Seq<char> {
    let parts = pieces(s, separator());
    if parts.len() > 1 {
        parts[1]
    } else {
        s
    }
}

/// The bytes that stand for long data: the first and the last 1024 of more than
/// 2048 bytes, else all of them.
pub open spec fn sampled(bytes: Seq<u8>) -> Seq<u8> {
    if bytes.len() > 2048 {
        bytes.take(1024) + bytes.skip(bytes.len() - 1024)
    } else {
        bytes
    }
}

/// Bytes as lower-case hexadecimal digits, two for each.
pub open spec fn hex(bytes: Seq<u8>) -> Seq<char>
    decreases bytes.len(),
{
    if bytes.len() == 0 {
        Seq::empty()
    } else {
        hex(bytes.drop_last()).push(hex_digit(bytes.last() as nat / 16)).push(
            hex_digit(bytes.last() as nat % 16),
        )
    }
}

/// The hash of the data in a data URL.
pub open spec fn content_hash(s: Seq<char>) -> Seq<char> {
    hex(sha256(sampled(encode_utf8(hashed_part(s)))))
}

/// Whether long data can be cut after its first 1024 and before its last 1024
/// bytes without cutting through a character. Encoded data always can.
pub open spec fn hashable(s: Seq<char>) -> bool {
    let bytes = encode_utf8(hashed_part(s));
    &&& bytes.len() > 1024 ==> is_char_boundary(bytes, 1024)
    &&& bytes.len() > 2048 ==> is_char_boundary(bytes, bytes.len() - 1024)
}

/// The part of a data URL that is hashed.
fn part_to_hash(base64_str: &str) -> (r: String)
    ensures
        r@ == hashed_part(base64_str@),
{
    proof {
        reveal_strlit(";base64,");
    }
    let parts = split(base64_str, ";base64,");
    if parts.len() > 1 {
        assert(views(parts@)[1] == parts@[1]@);
        parts[1].clone()
    } else {
        base64_str.to_owned()
    }
}

/// Tells whether the data of a data URL can be hashed.
pub fn can_hash(base64_str: &str) -> (b: bool)
    ensures
        b == hashable(base64_str@),
{
    let data = part_to_hash(base64_str);
    let length = data.as_str().as_bytes().len();
    if length > 1024 && !data.as_str().is_char_boundary(1024) {
        return false;
    }
    !(length > 2048 && !data.as_str().is_char_boundary(length - 1024))
}

/// The character for a hexadecimal digit.
fn hex_char(d: u8) -> (c: char)
    requires
        d < 16,
    ensures
        c == hex_digit(d as nat),
{
    if d < 10 {
        (48 + d) as char
    } else {
        (87 + d) as char
    }
}

/// Writes bytes as hexadecimal digits.
pub fn to_hex(bytes: &Vec<u8>) -> (out: String)
    ensures
        out@ == hex(bytes@),
{
    let mut out = String::new();
    let mut i: usize = 0;
    while i < bytes.len()
        invariant
            i <= bytes.len(),
            out@ == hex(bytes@.take(i as int)),
        decreases bytes.len() - i,
    {
        assert(bytes@.take(i + 1).drop_last() =~= bytes@.take(i as int));
        out.push(hex_char(bytes[i] / 16));
        out.push(hex_char(bytes[i] % 16));
        i += 1;
    }
    assert(bytes@.take(i as int) =~= bytes@);
    out
}

/// Copies a part of a slice behind what a vector holds.
fn copy_range(from: &[u8], start: usize, end: usize, out: &mut Vec<u8>)
    requires
        start <= end <= from@.len(),
    ensures
        final(out)@ == old(out)@ + from@.subrange(start as int, end as int),
{
    let ghost before = out@;
    let mut i: usize = start;
    while i < end
        invariant
            start <= i <= end <= from@.len(),
            out@ == before + from@.subrange(start as int, i as int),
        decreases end - i,
    {
        out.push(from[i]);
        i += 1;
    }
}

/// The bytes that stand for data.
pub fn sample(bytes: &[u8]) -> (out: Vec<u8>)
    ensures
        out@ == sampled(bytes@),
{
    let mut out: Vec<u8> = Vec::new();
    let length = bytes.len();
    if length > 2048 {
        copy_range(bytes, 0, 1024, &mut out);
        copy_range(bytes, length - 1024, length, &mut out);
    } else {
        copy_range(bytes, 0, length, &mut out);
    }
    out
}

/// The hash of the data in a data URL.
pub fn hash_base64_content(base64_str: &str) -> (hash: String)
    requires
        hashable(base64_str@),
    ensures
        hash@ == content_hash(base64_str@),
        hash@.len() == 64,
        forall|i: int|
            0 <= i < 64 ==> '0' <= #[trigger] hash@[i] <= '9' || 'a' <= hash@[i] <= 'f',
{
    let data = part_to_hash(base64_str);
    let bytes = sample(data.as_str().as_bytes());
    let digest = sha256_digest(&bytes);
    proof {
        lemma_hex(digest@);
    }
    to_hex(&digest)
}

/// Hexadecimal digits are what they should be, two for each byte.
proof fn lemma_hex(bytes: Seq<u8>)
    ensures
        hex(bytes).len() == 2 * bytes.len(),
        forall|i: int|
            0 <= i < hex(bytes).len() ==> '0' <= #[trigger] hex(bytes)[i] <= '9' || 'a' <= hex(
                bytes,
            )[i] <= 'f',
    decreases bytes.len(),
{
    if bytes.len() > 0 {
        lemma_hex(bytes.drop_last());
    }
}

/// A text without the separator, followed by it, has its first separator there.
proof fn lemma_first_separator(head: Seq<char>, rest: Seq<char>)
    requires
        !contains_text(head, separator()),
    ensures
        first_index(head + separator() + rest, separator()) == Some(head.len() as int),
{
    let sep = separator();
    let s = head + sep + rest;
    reveal_strlit(";base64,");
    lemma_first_index(s, sep);
    assert(s.skip(head.len() as int).take(sep.len() as int) =~= sep);
    assert(occurs_at(s, sep, head.len() as int));
    match first_index(s, sep) {
        Some(i) => {
            if i < head.len() {
                assert(s.skip(i).take(sep.len() as int) == sep);
                assert forall|j: int| 0 <= j < sep.len() implies s[i + j] == sep[j] by {
                    assert(s.skip(i).take(sep.len() as int)[j] == s[i + j]);
                }
                if i + sep.len() <= head.len() {
                    assert(head.skip(i).take(sep.len() as int) =~= sep);
                    assert(occurs_at(head, sep, i));
                } else {
                    let j = head.len() - i;
                    assert(s[i + j] == sep[0]);
                    assert(sep[0] == ';');
                    assert(sep[j] != ';');
                }
                assert(false);
            }
        },
        None => {},
    }
}

/// The pieces of a text with one separator.
proof fn lemma_two_pieces(head: Seq<char>, tail: Seq<char>)
    requires
        !contains_text(head, separator()),
        !contains_text(tail, separator()),
    ensures
        pieces(head + separator() + tail, separator()) == seq![head, tail],
{
    let sep = separator();
    let s = head + sep + tail;
    reveal_strlit(";base64,");
    lemma_first_separator(head, tail);
    lemma_first_index(tail, sep);
    assert(s.take(head.len() as int) =~= head);
    assert(s.skip((head.len() + sep.len()) as int) =~= tail);
    assert(pieces(tail, sep) == seq![tail]) by {
        match first_index(tail, sep) {
            Some(i) => assert(occurs_at(tail, sep, i)),
            None => {},
        }
    }
    assert(seq![head] + seq![tail] =~= seq![head, tail]);
}

/// A data URL that is put together from a MIME type and encoded data is taken
/// apart into these again.
pub proof fn data_url_round_trip(mime: Seq<char>, data: Seq<char>)
    requires
        !contains_text(mime, separator()),
        !contains_text(data, separator()),
    ensures
        data_url_parts("data:"@ + mime + separator() + data) == Ok::<
            (Seq<char>, Seq<char>),
            Seq<char>,
        >((mime, data)),
{
    let head = "data:"@ + mime;
    let url = head + separator() + data;
    lemma_prefixed(mime);
    lemma_two_pieces(head, data);
    assert(head.take("data:"@.len() as int) =~= "data:"@);
    assert(head.skip("data:"@.len() as int) =~= mime);
    assert(url.take("data:"@.len() as int) =~= "data:"@);
}

/// No separator begins inside the prefix of a data URL.
proof fn lemma_prefixed(mime: Seq<char>)
    requires
        !contains_text(mime, separator()),
    ensures
        !contains_text("data:"@ + mime, separator()),
{
    let head = "data:"@ + mime;
    let sep = separator();
    reveal_strlit("data:");
    reveal_strlit(";base64,");
    assert forall|i: int| !occurs_at(head, sep, i) by {
        if occurs_at(head, sep, i) {
            assert(head.skip(i).take(sep.len() as int)[0] == head[i]);
            if i < 5 {
                assert(head[i] == "data:"@[i]);
            } else {
                assert(head.skip(i) =~= mime.skip(i - 5));
                assert(occurs_at(mime, sep, i - 5));
            }
        }
    }
}

/// The hash of a data URL says nothing of its MIME type: it is the same for the
/// same data.
pub proof fn hash_is_of_the_data(mime: Seq<char>, other: Seq<char>, data: Seq<char>)
    requires
        !contains_text(mime, separator()),
        !contains_text(other, separator()),
        !contains_text(data, separator()),
    ensures
        content_hash("data:"@ + mime + separator() + data) == content_hash(
            "data:"@ + other + separator() + data,
        ),
        content_hash("data:"@ + mime + separator() + data) == content_hash(data),
{
    lemma_prefixed(mime);
    lemma_prefixed(other);
    lemma_two_pieces("data:"@ + mime, data);
    lemma_two_pieces("data:"@ + other, data);
    lemma_first_index(data, separator());
    match first_index(data, separator()) {
        Some(i) => assert(occurs_at(data, separator(), i)),
        None => {},
    }
}

/// Different six bits have different characters, and none of them is the
/// padding or opens the separator of a data URL.
proof fn lemma_base64_char(n: nat, m: nat)
    requires
        n < 64,
        m < 64,
    ensures
        base64_char(n) == base64_char(m) ==> n == m,
        base64_char(n) != '=',
        base64_char(n) != ';',
{
}

/// The first four characters of a text in base64 give its first bytes.
proof fn lemma_first_group(x: Seq<u8>, y: Seq<u8>)
    requires
        x.len() > 0,
        y.len() > 0,
        base64_text(x).take(4) == base64_text(y).take(4),
    ensures
        x[0] == y[0],
        x.len() > 1 <==> y.len() > 1,
        x.len() > 1 ==> x[1] == y[1],
        x.len() > 2 <==> y.len() > 2,
        x.len() > 2 ==> x[2] == y[2],
{
    let s = base64_text(x);
    let t = base64_text(y);
    assert forall|i: int| 0 <= i < 4 implies s[i] == t[i] by {
        assert(s.take(4)[i] == t.take(4)[i]);
    }
    let a = x[0] as nat;
    let b = if x.len() > 1 {
        x[1] as nat
    } else {
        0
    };
    let c = if x.len() > 2 {
        x[2] as nat
    } else {
        0
    };
    let d = y[0] as nat;
    let e = if y.len() > 1 {
        y[1] as nat
    } else {
        0
    };
    let f = if y.len() > 2 {
        y[2] as nat
    } else {
        0
    };
    lemma_base64_char(a / 4, d / 4);
    lemma_base64_char(a % 4 * 16 + b / 16, d % 4 * 16 + e / 16);
    lemma_base64_char(b % 16 * 4 + c / 64, e % 16 * 4 + f / 64);
    lemma_base64_char(e % 16 * 4 + f / 64, b % 16 * 4 + c / 64);
    lemma_base64_char(c % 64, f % 64);
    lemma_base64_char(f % 64, c % 64);
    assert(s[0] == base64_char(a / 4) && t[0] == base64_char(d / 4));
    assert(s[1] == base64_char(a % 4 * 16 + b / 16) && t[1] == base64_char(d % 4 * 16 + e / 16));
    assert(s[2] == t[2] && s[3] == t[3]);
}

/// Up to three bytes take four characters, more take more.
proof fn lemma_base64_length(bytes: Seq<u8>)
    ensures
        bytes.len() == 0 <==> base64_text(bytes).len() == 0,
        0 < bytes.len() <= 3 <==> base64_text(bytes).len() == 4,
{
    reveal_with_fuel(base64_text, 2);
}

/// Different bytes have different base64 forms.
proof fn lemma_base64_injective(x: Seq<u8>, y: Seq<u8>)
    requires
        base64_text(x) == base64_text(y),
    ensures
        x == y,
    decreases x.len(),
{
    lemma_base64_length(x);
    lemma_base64_length(y);
    if x.len() == 0 || y.len() == 0 {
        assert(x =~= y);
    } else {
        lemma_first_group(x, y);
        let s = base64_text(x);
        if x.len() > 3 && y.len() > 3 {
            assert(s.skip(4) =~= base64_text(x.skip(3)));
            assert(s.skip(4) =~= base64_text(y.skip(3)));
            lemma_base64_injective(x.skip(3), y.skip(3));
            assert forall|i: int| 3 <= i < x.len() implies x[i] == y[i] by {
                assert(x.skip(3)[i - 3] == y.skip(3)[i - 3]);
            }
            assert(x.len() == y.len()) by {
                assert(x.skip(3).len() == y.skip(3).len());
            }
        } else {
            assert(x.len() <= 3 && y.len() <= 3);
        }
        assert(x =~= y);
    }
}

/// Decoding gives back what was encoded.
pub proof fn decoding_undoes_encoding(bytes: Seq<u8>)
    ensures
        decoded(base64_text(bytes)) == Ok::<Seq<u8>, Seq<char>>(bytes),
{
    let text = base64_text(bytes);
    assert(exists|other: Seq<u8>| text == #[trigger] base64_text(other));
    let found = choose|other: Seq<u8>| text == #[trigger] base64_text(other);
    lemma_base64_injective(bytes, found);
}

/// Text in base64 holds no semicolon.
proof fn lemma_no_semicolon(bytes: Seq<u8>)
    ensures
        !base64_text(bytes).contains(';'),
    decreases bytes.len(),
{
    if bytes.len() > 0 {
        let text = base64_text(bytes);
        let a = bytes[0] as nat;
        let b = if bytes.len() > 1 {
            bytes[1] as nat
        } else {
            0
        };
        let c = if bytes.len() > 2 {
            bytes[2] as nat
        } else {
            0
        };
        lemma_base64_char(a / 4, 0);
        lemma_base64_char(a % 4 * 16 + b / 16, 0);
        lemma_base64_char(b % 16 * 4 + c / 64, 0);
        lemma_base64_char(c % 64, 0);
        if bytes.len() > 3 {
            let rest = base64_text(bytes.skip(3));
            lemma_no_semicolon(bytes.skip(3));
            assert forall|i: int| 4 <= i < text.len() implies text[i] != ';' by {
                assert(text[i] == rest[i - 4]);
            }
        }
    }
}

/// The file for a data URL with bytes in base64 holds exactly these bytes, and
/// its name ends in the extension for the MIME type.
pub proof fn file_holds_what_was_encoded(mime: Seq<char>, bytes: Seq<u8>, random: Seq<char>)
    requires
        !contains_text(mime, separator()),
    ensures
        temp_file_for("data:"@ + mime + separator() + base64_text(bytes), random) == Ok::<
            TempFileView,
            Seq<char>,
        >(TempFileView { name: temp_name(random, file_extension(mime)), contents: bytes }),
{
    let data = base64_text(bytes);
    reveal_strlit(";base64,");
    lemma_no_semicolon(bytes);
    assert forall|i: int| !occurs_at(data, separator(), i) by {
        if occurs_at(data, separator(), i) {
            assert(data.skip(i).take(separator().len() as int)[0] == data[i]);
        }
    }
    data_url_round_trip(mime, data);
    decoding_undoes_encoding(bytes);
}

} // verus!
