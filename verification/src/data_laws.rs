//! What images that hold their data come to: the parts of a data URL, the file
//! for it, and the hash of its data.
use crate::data_url::{
    content_hash, data_url_parts, data_url_round_trip, extension_of, hashable, hashed_part, hex,
    random_part, sampled, separator, temp_file_for, temp_file_with, upload_mime,
    TempFileView,
};
use crate::external::{base64_problem, base64_value, hex_digit, sha256};
use crate::text::{begins_with, first_index, pieces, without_leading};
use crate::text_laws::{
    beginning_is_by_character, first_occurrence_is_first, joining_undoes_splitting,
    leading_copies_are_left_away, occurrence_is_by_character, reads_at, stands_in,
};
use vstd::prelude::*;
use vstd::utf8::{
    encode_utf8, encode_utf8_valid_utf8, is_ascii_chars, is_ascii_chars_encode_utf8,
    is_char_boundary_iff_not_is_continuation_byte,
};

verus! {

/// The pieces of a text that is split at one or several separators.
proof fn lemma_pieces(url: Seq<char>)
    ensures
        pieces(url, ";base64,"@).len() == 2 ==> url == pieces(url, ";base64,"@)[0] + ";base64,"@
            + pieces(url, ";base64,"@)[1],
        pieces(url, ";base64,"@).len() == 1 <==> !stands_in(url, ";base64,"@),
{
    let sep = ";base64,"@;
    reveal_strlit(";base64,");
    joining_undoes_splitting(url, sep);
    first_occurrence_is_first(url, sep);
    let parts = pieces(url, sep);
    if parts.len() == 2 {
        assert(parts.drop_last() =~= seq![parts[0]]);
        assert(crate::text::joined(parts.drop_last(), sep) == parts[0]);
        assert(crate::text::joined(parts, sep) == parts[0] + sep + parts[1]);
    }
    if let Some(i) = first_index(url, sep) {
        joining_undoes_splitting(url.skip(i + sep.len() as int), sep);
    }
}

/// A data URL is `data:`, a MIME type, `;base64,` and data: it is taken apart
/// into exactly these, and nothing else is a data URL.
pub proof fn data_urls_are_taken_apart(url: Seq<char>)
    ensures
        data_url_parts(url) matches Ok((mime, data)) ==> {
            &&& url == "data:"@ + mime + ";base64,"@ + data
            &&& !stands_in(mime, ";base64,"@)
            &&& !stands_in(data, ";base64,"@)
        },
        !reads_at(url, "data:"@, 0) ==> data_url_parts(url) == Err::<(Seq<char>, Seq<char>), _>(
            "Invalid data URL format"@,
        ),
        reads_at(url, "data:"@, 0) && !stands_in(url, ";base64,"@) ==> data_url_parts(url) == Err::<
            (Seq<char>, Seq<char>),
            _,
        >("Invalid data URL format: missing base64 separator"@),
        reads_at(url, "data:"@, 0) && data_url_parts(url) is Err ==> data_url_parts(url)->Err_0
            == "Invalid data URL format: missing base64 separator"@,
        forall|mime: Seq<char>, data: Seq<char>|
            url == #[trigger] ("data:"@ + mime + ";base64,"@ + data) && !stands_in(
                mime,
                ";base64,"@,
            ) && !stands_in(data, ";base64,"@) ==> data_url_parts(url) == Ok::<_, Seq<char>>(
                (mime, data),
            ),
{
    let sep = ";base64,"@;
    let begin = "data:"@;
    reveal_strlit(";base64,");
    reveal_strlit("data:");
    beginning_is_by_character(url, begin);
    lemma_pieces(url);
    joining_undoes_splitting(url, sep);
    let parts = pieces(url, sep);
    if reads_at(url, begin, 0) {
        assert forall|k: int| 0 <= k < begin.len() implies url[k] == #[trigger] begin[k] by {
            assert(url[0 + k] == begin[k]);
        }
        assert(begins_with(url, begin));
    }
    if begins_with(url, begin) {
        assert(reads_at(url, begin, 0));
    }
    if begins_with(url, begin) && parts.len() == 2 {
        let head = parts[0];
        if head.len() < 5 {
            assert(url[head.len() as int] == sep[0]);
            assert(url[head.len() as int] == begin[head.len() as int]);
        }
        assert forall|k: int| 0 <= k < begin.len() implies head[k] == #[trigger] begin[k] by {
            assert(url[k] == head[k]);
        }
        beginning_is_by_character(head, begin);
        let mime = head.skip(5);
        assert(head =~= begin + mime);
        assert(url =~= begin + mime + sep + parts[1]);
        if stands_in(mime, sep) {
            let i = choose|i: int| #[trigger] reads_at(mime, sep, i);
            assert forall|k: int| 0 <= k < sep.len() implies head[i + 5 + k]
                == #[trigger] sep[k] by {
                assert(mime[i + k] == sep[k]);
            }
            assert(reads_at(head, sep, i + 5));
        }
        assert(!stands_in(parts[0], sep) && !stands_in(parts[1], sep));
    }
    assert forall|mime: Seq<char>, data: Seq<char>|
        url == #[trigger] (begin + mime + sep + data) && !stands_in(mime, sep) && !stands_in(
            data,
            sep,
        ) implies data_url_parts(url) == Ok::<_, Seq<char>>((mime, data)) by {
        occurrence_is_by_character(mime, sep);
        occurrence_is_by_character(data, sep);
        data_url_round_trip(mime, data);
    }
}

/// The file for a data URL holds what its data stand for in base64 and is named
/// after its MIME type. Data that are not base64, and what is no data URL, give
/// no file but the reason.
pub proof fn files_hold_the_data(url: Seq<char>, random: Seq<char>)
    ensures
        data_url_parts(url) matches Ok((mime, data)) ==> {
            &&& base64_value(data) is Some ==> temp_file_for(url, random) == Ok::<_, Seq<char>>(
                TempFileView {
                    name: "poe2openai_"@ + random + "."@ + (if extension_of(mime) is Some {
                        extension_of(mime)->0
                    } else {
                        "bin"@
                    }),
                    contents: base64_value(data)->0,
                },
            )
            &&& base64_value(data) is None ==> temp_file_for(url, random) == Err::<TempFileView, _>(
                "Base64 decoding failed: "@ + base64_problem(data),
            )
        },
        data_url_parts(url) matches Err(e) ==> temp_file_for(url, random) == Err::<TempFileView, _>(
            e,
        ),
{
}

/// An upload states the MIME type of the data URL.
pub proof fn uploads_state_the_mime_type(url: Seq<char>, mime: Seq<char>, data: Seq<char>)
    ensures
        !reads_at(url, "data:"@, 0) ==> upload_mime(url) is None,
        reads_at(url, "data:"@, 0) ==> upload_mime(url) is Some,
        url == "data:"@ + mime + ";base64,"@ + data && !stands_in(mime, ";base64,"@) && !stands_in(
            data,
            ";base64,"@,
        ) && !reads_at(mime, "data:"@, 0) ==> upload_mime(url) == Some(mime),
{
    let sep = ";base64,"@;
    let begin = "data:"@;
    reveal_strlit("data:");
    beginning_is_by_character(url, begin);
    if reads_at(url, begin, 0) {
        assert forall|k: int| 0 <= k < begin.len() implies url[k] == #[trigger] begin[k] by {
            assert(url[0 + k] == begin[k]);
        }
    }
    if begins_with(url, begin) {
        assert(reads_at(url, begin, 0));
    }
    if url == begin + mime + sep + data && !stands_in(mime, sep) && !stands_in(data, sep)
        && !reads_at(mime, begin, 0) {
        data_urls_are_taken_apart(url);
        assert(data_url_parts(begin + mime + sep + data) == Ok::<_, Seq<char>>((mime, data)));
        lemma_pieces(url);
        let parts = pieces(url, sep);
        assert(parts.len() == 2);
        let head = parts[0];
        assert(begins_with(url, begin));
        assert(parts[1] == data);
        assert(head.len() == begin.len() + mime.len());
        assert(head =~= url.take(head.len() as int));
        assert(head =~= begin + mime);
        leading_copies_are_left_away(mime, begin);
    }
}

/// Up to two kilobytes are hashed whole; of more the first and the last
/// kilobyte are.
pub proof fn long_data_are_hashed_at_both_ends(bytes: Seq<u8>)
    ensures
        bytes.len() <= 2048 ==> sampled(bytes) == bytes,
        bytes.len() > 2048 ==> {
            &&& sampled(bytes).len() == 2048
            &&& forall|i: int| 0 <= i < 1024 ==> sampled(bytes)[i] == bytes[i]
            &&& forall|i: int|
                1024 <= i < 2048 ==> sampled(bytes)[i] == bytes[bytes.len() - 2048 + i]
        },
{
}

/// Every byte is written as two hexadecimal digits, the higher one first.
pub proof fn bytes_are_written_in_hexadecimal(bytes: Seq<u8>)
    ensures
        hex(bytes).len() == 2 * bytes.len(),
        forall|i: int|
            0 <= i < bytes.len() ==> ({
                let b = #[trigger] bytes[i] as nat;
                hex(bytes)[2 * i] == hex_digit(b / 16) && hex(bytes)[2 * i + 1] == hex_digit(b % 16)
            }),
    decreases bytes.len(),
{
    if bytes.len() > 0 {
        let before = bytes.drop_last();
        bytes_are_written_in_hexadecimal(before);
        assert forall|i: int| 0 <= i < bytes.len() implies ({
            let b = #[trigger] bytes[i] as nat;
            hex(bytes)[2 * i] == hex_digit(b / 16) && hex(bytes)[2 * i + 1] == hex_digit(b % 16)
        }) by {
            if i < before.len() {
                assert(before[i] == bytes[i]);
                assert(hex(bytes)[2 * i] == hex(before)[2 * i]);
                assert(hex(bytes)[2 * i + 1] == hex(before)[2 * i + 1]);
            }
        }
    }
}

/// The hash of a data URL is the SHA-256 digest of its data, in hexadecimal; a
/// text without a separator is hashed as it is.
pub proof fn hashes_are_digests_of_the_data(url: Seq<char>)
    ensures
        data_url_parts(url) matches Ok((_, data)) ==> content_hash(url) == hex(
            sha256(sampled(encode_utf8(data))),
        ),
        !stands_in(url, ";base64,"@) ==> content_hash(url) == hex(
            sha256(sampled(encode_utf8(url))),
        ),
{
    lemma_pieces(url);
}

/// The extensions of the files by their MIME types.
pub proof fn mime_types_have_their_extensions(mime: Seq<char>)
    ensures
        extension_of("image/jpeg"@) == Some("jpeg"@),
        extension_of("image/jpg"@) == Some("jpeg"@),
        extension_of("image/png"@) == Some("png"@),
        extension_of("image/gif"@) == Some("gif"@),
        extension_of("image/webp"@) == Some("webp"@),
        extension_of("image/svg+xml"@) == Some("svg"@),
        extension_of("image/bmp"@) == Some("bmp"@),
        extension_of("image/tiff"@) == Some("tiff"@),
        extension_of("application/pdf"@) == Some("pdf"@),
        extension_of("text/plain"@) == Some("txt"@),
        extension_of("text/csv"@) == Some("csv"@),
        extension_of("application/json"@) == Some("json"@),
        extension_of("application/xml"@) == Some("xml"@),
        extension_of("text/xml"@) == Some("xml"@),
        extension_of("application/zip"@) == Some("zip"@),
        extension_of("application/x-tar"@) == Some("tar"@),
        extension_of("application/x-gzip"@) == Some("gz"@),
        extension_of("audio/mpeg"@) == Some("mp3"@),
        extension_of("audio/wav"@) == Some("wav"@),
        extension_of("audio/ogg"@) == Some("ogg"@),
        extension_of("video/mp4"@) == Some("mp4"@),
        extension_of("video/mpeg"@) == Some("mpeg"@),
        extension_of("video/quicktime"@) == Some("mov"@),
        extension_of(mime) is Some <==> ({
            ||| mime == "image/jpeg"@
            ||| mime == "image/jpg"@
            ||| mime == "image/png"@
            ||| mime == "image/gif"@
            ||| mime == "image/webp"@
            ||| mime == "image/svg+xml"@
            ||| mime == "image/bmp"@
            ||| mime == "image/tiff"@
            ||| mime == "application/pdf"@
            ||| mime == "text/plain"@
            ||| mime == "text/csv"@
            ||| mime == "application/json"@
            ||| mime == "application/xml"@
            ||| mime == "text/xml"@
            ||| mime == "application/zip"@
            ||| mime == "application/x-tar"@
            ||| mime == "application/x-gzip"@
            ||| mime == "audio/mpeg"@
            ||| mime == "audio/wav"@
            ||| mime == "audio/ogg"@
            ||| mime == "video/mp4"@
            ||| mime == "video/mpeg"@
            ||| mime == "video/quicktime"@
        }),
{
    reveal_strlit("image/jpeg");
    assert("image/jpeg"@.len() == 10 && "image/jpeg"@[0] == 'i' && "image/jpeg"@[6] == 'j');
    reveal_strlit("image/jpg");
    assert("image/jpg"@.len() == 9 && "image/jpg"@[0] == 'i' && "image/jpg"@[6] == 'j');
    reveal_strlit("image/png");
    assert("image/png"@.len() == 9 && "image/png"@[0] == 'i' && "image/png"@[6] == 'p');
    reveal_strlit("image/gif");
    assert("image/gif"@.len() == 9 && "image/gif"@[0] == 'i' && "image/gif"@[6] == 'g');
    reveal_strlit("image/webp");
    assert("image/webp"@.len() == 10 && "image/webp"@[0] == 'i' && "image/webp"@[6] == 'w');
    reveal_strlit("image/svg+xml");
    assert("image/svg+xml"@.len() == 13 && "image/svg+xml"@[0] == 'i');
    assert("image/svg+xml"@[12] == 'l');
    reveal_strlit("image/bmp");
    assert("image/bmp"@.len() == 9 && "image/bmp"@[0] == 'i' && "image/bmp"@[6] == 'b');
    reveal_strlit("image/tiff");
    assert("image/tiff"@.len() == 10 && "image/tiff"@[0] == 'i' && "image/tiff"@[6] == 't');
    reveal_strlit("application/pdf");
    assert("application/pdf"@.len() == 15 && "application/pdf"@[0] == 'a');
    assert("application/pdf"@[12] == 'p');
    reveal_strlit("text/plain");
    assert("text/plain"@.len() == 10 && "text/plain"@[0] == 't' && "text/plain"@[6] == 'l');
    reveal_strlit("text/csv");
    assert("text/csv"@.len() == 8 && "text/csv"@[0] == 't' && "text/csv"@[5] == 'c');
    reveal_strlit("application/json");
    assert("application/json"@.len() == 16 && "application/json"@[0] == 'a');
    assert("application/json"@[12] == 'j');
    reveal_strlit("application/xml");
    assert("application/xml"@.len() == 15 && "application/xml"@[0] == 'a');
    assert("application/xml"@[12] == 'x');
    reveal_strlit("text/xml");
    assert("text/xml"@.len() == 8 && "text/xml"@[0] == 't' && "text/xml"@[5] == 'x');
    reveal_strlit("application/zip");
    assert("application/zip"@.len() == 15 && "application/zip"@[0] == 'a');
    assert("application/zip"@[12] == 'z');
    reveal_strlit("application/x-tar");
    assert("application/x-tar"@.len() == 17 && "application/x-tar"@[0] == 'a');
    assert("application/x-tar"@[12] == 'x');
    reveal_strlit("application/x-gzip");
    assert("application/x-gzip"@.len() == 18 && "application/x-gzip"@[0] == 'a');
    assert("application/x-gzip"@[12] == 'x');
    reveal_strlit("audio/mpeg");
    assert("audio/mpeg"@.len() == 10 && "audio/mpeg"@[0] == 'a' && "audio/mpeg"@[6] == 'm');
    reveal_strlit("audio/wav");
    assert("audio/wav"@.len() == 9 && "audio/wav"@[0] == 'a' && "audio/wav"@[6] == 'w');
    reveal_strlit("audio/ogg");
    assert("audio/ogg"@.len() == 9 && "audio/ogg"@[0] == 'a' && "audio/ogg"@[6] == 'o');
    reveal_strlit("video/mp4");
    assert("video/mp4"@.len() == 9 && "video/mp4"@[0] == 'v' && "video/mp4"@[6] == 'm');
    reveal_strlit("video/mpeg");
    assert("video/mpeg"@.len() == 10 && "video/mpeg"@[0] == 'v' && "video/mpeg"@[6] == 'm');
    reveal_strlit("video/quicktime");
    assert("video/quicktime"@.len() == 15 && "video/quicktime"@[0] == 'v');
    assert("video/quicktime"@[12] == 'i');
}

/// The random part of a file name has sixteen characters, each a letter, a
/// digit, `_` or `-`.
pub proof fn random_parts_have_sixteen_characters(random: Seq<char>)
    ensures
        random_part(random) <==> random.len() == 16 && forall|i: int|
            0 <= i < random.len() ==> ({
                let c = #[trigger] random[i];
                ('a' <= c <= 'z') || ('A' <= c <= 'Z') || ('0' <= c <= '9') || c == '_' || c == '-'
            }),
{
}

/// The pieces of a text in ASCII are in ASCII.
proof fn lemma_ascii_pieces(s: Seq<char>, sep: Seq<char>)
    requires
        is_ascii_chars(s),
    ensures
        forall|k: int|
            0 <= k < pieces(s, sep).len() ==> is_ascii_chars(#[trigger] pieces(s, sep)[k]),
    decreases s.len(),
{
    let parts = pieces(s, sep);
    if sep.len() > 0 {
        if let Some(i) = first_index(s, sep) {
            if 0 <= i && i + sep.len() <= s.len() {
                let rest = s.skip(i + sep.len() as int);
                assert(is_ascii_chars(rest));
                lemma_ascii_pieces(rest, sep);
                assert(is_ascii_chars(s.take(i)));
                assert forall|k: int| 0 <= k < parts.len() implies is_ascii_chars(
                    #[trigger] parts[k],
                ) by {
                    if k > 0 {
                        assert(parts[k] == pieces(rest, sep)[k - 1]);
                    }
                }
            }
        }
    }
}

/// What is in ASCII, as encoded data are, can always be hashed.
pub proof fn ascii_can_be_hashed(url: Seq<char>)
    requires
        is_ascii_chars(url),
    ensures
        hashable(url),
{
    lemma_ascii_pieces(url, separator());
    let part = hashed_part(url);
    assert(is_ascii_chars(part));
    let bytes = encode_utf8(part);
    is_ascii_chars_encode_utf8(part);
    encode_utf8_valid_utf8(part);
    if bytes.len() > 1024 {
        assert(part[1024] as u8 == bytes[1024]);
        is_char_boundary_iff_not_is_continuation_byte(bytes, 1024);
    }
    if bytes.len() > 2048 {
        let n = bytes.len() - 1024;
        assert(part[n] as u8 == bytes[n]);
        is_char_boundary_iff_not_is_continuation_byte(bytes, n);
    }
}

/// The first piece of a text, and what follows it.
proof fn lemma_first_piece(a: Seq<char>, rest: Seq<char>)
    requires
        forall|i: int|
            0 <= i < a.len() ==> !#[trigger] reads_at(
                a + ";base64,"@ + rest,
                ";base64,"@,
                i,
            ),
    ensures
        pieces(a + ";base64,"@ + rest, ";base64,"@) == seq![a] + pieces(rest, ";base64,"@),
{
    let sep = ";base64,"@;
    reveal_strlit(";base64,");
    let s = a + sep + rest;
    let n = a.len() as int;
    first_occurrence_is_first(s, sep);
    assert forall|k: int| 0 <= k < sep.len() implies s[n + k] == #[trigger] sep[k] by {}
    assert(reads_at(s, sep, n));
    assert(first_index(s, sep) == Some(n));
    assert(s.take(n) =~= a);
    assert(s.skip(n + sep.len() as int) =~= rest);
}

/// What is hashed stands between the first separator and the next one, or the
/// end. What is stated as the MIME type stands before the first separator,
/// without the beginning of a data URL.
pub proof fn separators_part_type_and_data(
    a: Seq<char>,
    b: Seq<char>,
    c: Seq<char>,
)
    requires
        forall|i: int|
            0 <= i < a.len() ==> !#[trigger] reads_at(a + ";base64,"@ + b, ";base64,"@, i),
        !stands_in(b, ";base64,"@),
        forall|i: int|
            0 <= i < a.len() ==> !#[trigger] reads_at(
                a + ";base64,"@ + (b + ";base64,"@ + c),
                ";base64,"@,
                i,
            ),
        forall|i: int|
            0 <= i < b.len() ==> !#[trigger] reads_at(b + ";base64,"@ + c, ";base64,"@, i),
    ensures
        hashed_part(a + ";base64,"@ + b) == b,
        hashed_part(a + ";base64,"@ + (b + ";base64,"@ + c)) == b,
        hashed_part(b) == b,
        reads_at(a + ";base64,"@ + b, "data:"@, 0) ==> upload_mime(a + ";base64,"@ + b) == Some(
            without_leading(a, "data:"@),
        ),
        reads_at(b, "data:"@, 0) ==> upload_mime(b) == Some(without_leading(b, "data:"@)),
        data_url_parts(a + ";base64,"@ + (b + ";base64,"@ + c)) is Err,
{
    let sep = ";base64,"@;
    reveal_strlit(";base64,");
    lemma_pieces(b);
    first_occurrence_is_first(b, sep);
    assert(pieces(b, sep) == seq![b]);
    lemma_first_piece(a, b);
    lemma_first_piece(a, b + sep + c);
    lemma_first_piece(b, c);
    joining_undoes_splitting(c, sep);
    uploads_state_the_mime_type(a + sep + b, a, b);
    uploads_state_the_mime_type(b, a, b);
    let two = a + sep + (b + sep + c);
    assert(pieces(two, sep)[1] == b);
    assert(pieces(two, sep).len() >= 3);
}

/// A file holds what was decoded, under a name made of the random part and the
/// extension for the MIME type; what could not be decoded gives the reason.
pub proof fn files_hold_what_was_decoded(
    mime: Seq<char>,
    contents: Seq<u8>,
    e: Seq<char>,
    random: Seq<char>,
)
    ensures
        temp_file_with(mime, Ok(contents), random) == Ok::<_, Seq<char>>(
            TempFileView {
                name: "poe2openai_"@ + random + "."@ + (if extension_of(mime) is Some {
                    extension_of(mime)->0
                } else {
                    "bin"@
                }),
                contents,
            },
        ),
        temp_file_with(mime, Err(e), random) == Err::<TempFileView, _>(
            "Base64 decoding failed: "@ + e,
        ),
{
}

} // verus!
