use vstd::prelude::*;
use base64::Engine;
use crate::common::FileMetaData;
use crate::packet::NodeId;

verus! {

// ---------------------------------------------------------------------------
// Node ids typed by the user
// ---------------------------------------------------------------------------

pub open spec fn is_digit(c: char) -> bool {
    '0' <= c && c <= '9'
}

/// The value of a string of decimal digits.
pub open spec fn digits_value(s: Seq<char>) -> int
    decreases s.len(),
{
    if s.len() == 0 {
        0
    } else {
        digits_value(s.drop_last()) * 10 + (s.last() as int - '0' as int)
    }
}

/// The digits part of an unsigned number: what follows an optional `+`.
pub open spec fn unsigned_body(s: Seq<char>) -> Seq<char> {
    if s.len() > 0 && s[0] == '+' {
        s.drop_first()
    } else {
        s
    }
}

/// At least one character, all of them decimal digits.
pub open spec fn all_digits(s: Seq<char>) -> bool {
    s.len() > 0 && forall|i: int| 0 <= i < s.len() ==> is_digit(#[trigger] s[i])
}

/// What the `from_str` of an unsigned integer type whose largest value is
/// `limit` accepts: an optional `+` and then at least one decimal digit and
/// nothing else, whose value is at most `limit`.
pub open spec fn parsed_up_to(s: Seq<char>, limit: int) -> Option<int> {
    if all_digits(unsigned_body(s)) && digits_value(unsigned_body(s)) <= limit {
        Some(digits_value(unsigned_body(s)))
    } else {
        None
    }
}

/// What `u8::from_str` accepts (see `parsed_up_to`).
pub open spec fn parsed_byte(s: Seq<char>) -> Option<u8> {
    match parsed_up_to(s, 255) {
        Some(v) => Some(v as u8),
        None => None,
    }
}

/// A number of digits is at least the number of its first digits.
proof fn lemma_digits_prefix(s: Seq<char>, k: int)
    requires
        0 <= k <= s.len(),
        forall|i: int| 0 <= i < s.len() ==> is_digit(#[trigger] s[i]),
    ensures
        0 <= digits_value(s.subrange(0, k)) <= digits_value(s),
    decreases s.len(),
{
    if k == s.len() {
        assert(s.subrange(0, k) =~= s);
        if s.len() > 0 {
            lemma_digits_prefix(s.drop_last(), k - 1);
            assert(s.drop_last().subrange(0, k - 1) =~= s.drop_last());
        }
    } else {
        let t = s.drop_last();
        assert forall|i: int| 0 <= i < t.len() implies is_digit(#[trigger] t[i]) by {
            assert(t[i] == s[i]);
        }
        lemma_digits_prefix(t, k);
        assert(t.subrange(0, k) =~= s.subrange(0, k));
        assert(is_digit(s.last()));
    }
}

/// Reads an unsigned decimal number of at most `limit`, as the `from_str`
/// of unsigned integer types does (see `parsed_up_to`).
pub fn parse_unsigned(s: &str, limit: usize) -> (res: Option<usize>)
    ensures
        res is None <==> parsed_up_to(s@, limit as int) is None,
        res matches Some(r) ==> parsed_up_to(s@, limit as int) == Some(r as int),
{
    let n = s.unicode_len();
    let mut start: usize = 0;
    if n > 0 && s.get_char(0) == '+' {
        start = 1;
    }
    let ghost body = s@.subrange(start as int, n as int);
    assert(unsigned_body(s@) =~= body);
    if start >= n {
        return None;
    }
    let mut value: usize = 0;
    let mut i: usize = start;
    assert(s@.subrange(start as int, start as int) =~= Seq::<char>::empty());
    while i < n
        invariant
            start <= i <= n,
            n == s@.len(),
            body == s@.subrange(start as int, n as int),
            unsigned_body(s@) == body,
            forall|j: int| start <= j < i ==> is_digit(#[trigger] s@[j]),
            value == digits_value(s@.subrange(start as int, i as int)),
            value <= limit,
        decreases n - i,
    {
        let c = s.get_char(i);
        if !('0' <= c && c <= '9') {
            assert(body[i - start] == c);
            return None;
        }
        let d: usize = (c as u32 - '0' as u32) as usize;
        let ghost next = s@.subrange(start as int, i as int + 1);
        assert(next.drop_last() =~= s@.subrange(start as int, i as int));
        assert(next.last() == c);
        assert(digits_value(next) == value * 10 + d);
        if d > limit || value > (limit - d) / 10 {
            assert(value * 10 + d > limit) by (nonlinear_arith)
                requires
                    d > limit || value > (limit - d) / 10,
                    d <= 9;
            proof {
                if all_digits(body) {
                    lemma_digits_prefix(body, i - start + 1);
                    assert(body.subrange(0, i - start + 1) =~= next);
                }
            }
            return None;
        }
        assert(value * 10 + d <= limit) by (nonlinear_arith)
            requires
                d <= limit,
                value <= (limit - d) / 10;
        value = value * 10 + d;
        i = i + 1;
    }
    assert(s@.subrange(start as int, n as int) =~= body);
    Some(value)
}

/// `str::parse::<u8>` (see `parsed_byte`).
fn parse_byte(s: &str) -> (res: Option<u8>)
    ensures
        res == parsed_byte(s@),
{
    match parse_unsigned(s, 255) {
        Some(v) => {
            Some(v as u8)
        },
        None => None,
    }
}

/// The id that stands for a node id that could not be read.
pub const FALLBACK_ID: NodeId = 27;

/// The node id typed in `id`, or `FALLBACK_ID` when it is not one.
pub fn parse_id(id: String) -> (res: NodeId)
    ensures
        res == match parsed_byte(id@) {
            Some(v) => v,
            None => FALLBACK_ID,
        },
{
    match parse_byte(id.as_str()) {
        Some(node_id) => node_id,
        None => FALLBACK_ID,
    }
}

// ---------------------------------------------------------------------------
// File names
// ---------------------------------------------------------------------------

/// What follows the last `/` of a path (all of it when there is none).
pub open spec fn after_last_slash(s: Seq<char>) -> Seq<char>
    decreases s.len(),
{
    if s.len() == 0 {
        s
    } else if s.last() == '/' {
        Seq::empty()
    } else {
        after_last_slash(s.drop_last()).push(s.last())
    }
}

proof fn lemma_after_last_slash(s: Seq<char>, i: int)
    requires
        0 <= i <= s.len(),
        i == 0 || s[i - 1] == '/',
        forall|j: int| i <= j < s.len() ==> s[j] != '/',
    ensures
        after_last_slash(s) == s.subrange(i, s.len() as int),
    decreases s.len(),
{
    if s.len() == i {
        if i == 0 {
            assert(s.subrange(0, 0) =~= s);
        } else {
            assert(s.subrange(i, i) =~= Seq::<char>::empty());
        }
    } else {
        lemma_after_last_slash(s.drop_last(), i);
        assert(s.subrange(i, s.len() as int) =~= s.drop_last().subrange(i, s.len() - 1).push(s.last()));
    }
}

/// The file name of a path: what follows its last `/`.
pub fn trim_into_file_name(actual_path: &String) -> (name: String)
    ensures
        name@ == after_last_slash(actual_path@),
{
    let s = actual_path.as_str();
    let n = s.unicode_len();
    let mut i: usize = n;
    while i > 0 && s.get_char(i - 1) != '/'
        invariant
            i <= n,
            n == s@.len(),
            forall|j: int| i <= j < n ==> s@[j] != '/',
        decreases i,
    {
        i = i - 1;
    }
    proof {
        lemma_after_last_slash(s@, i as int);
    }
    String::from_str(s.substring_char(i, n))
}

// ---------------------------------------------------------------------------
// Received files
// ---------------------------------------------------------------------------

/// The bytes that the standard base64 alphabet (with padding) decodes a text
/// to, or none when the text is not valid base64.
pub uninterp spec fn base64_decoded(text: Seq<char>) -> Option<Seq<u8>>;

pub open spec fn bytes_view(v: Option<Vec<u8>>) -> Option<Seq<u8>> {
    match v {
        Some(b) => Some(b@),
        None => None,
    }
}

/// `base64::engine::general_purpose::STANDARD.decode`: its result is named,
/// a failure of any kind becomes none.
#[verifier::external_body]
fn decode_base64(content: &str) -> (res: Option<Vec<u8>>)
    ensures
        bytes_view(res) == base64_decoded(content@),
{
    match base64::engine::general_purpose::STANDARD.decode(content) {
        Ok(bytes) => Some(bytes),
        Err(_) => None,
    }
}

/// Where a received file is stored: `folder/title.extension`.
pub open spec fn save_path(folder: Seq<char>, title: Seq<char>, extension: Seq<char>) -> Seq<char> {
    folder + "/"@ + title + "."@ + extension
}

/// The message of a file whose content is not valid base64.
pub open spec fn decode_failure() -> Seq<char> {
    "Failed to decode the file"@
}

/// A file to write: its path and its bytes.
pub struct FileToSave {
    pub path: String,
    pub bytes: Vec<u8>,
}

/// The file to write for a received file, given its decoded content: the
/// path in the folder and the bytes, or the decoding failure.
pub fn file_from_decoded(path_folder: &str, fmd: &FileMetaData, decoded: Option<Vec<u8>>) -> (res: Result<FileToSave, String>)
    ensures
        match decoded {
            Some(b) => res is Ok && res->Ok_0.path@ == save_path(path_folder@, fmd.title@, fmd.extension@)
                && res->Ok_0.bytes@ == b@,
            None => res is Err && res->Err_0@ == decode_failure(),
        },
{
    match decoded {
        Some(bytes) => {
            let mut path = String::from_str(path_folder);
            path.append("/");
            path.append(fmd.title.as_str());
            path.append(".");
            path.append(fmd.extension.as_str());
            Ok(FileToSave { path, bytes })
        },
        None => Err(String::from_str("Failed to decode the file")),
    }
}

/// The file to write for a received file: its content decoded from base64,
/// stored as `folder/title.extension`; the decoding failure otherwise.
pub fn prepare_file(path_folder: &str, fmd: &FileMetaData) -> (res: Result<FileToSave, String>)
    ensures
        match base64_decoded(fmd.content@) {
            Some(b) => res is Ok && res->Ok_0.path@ == save_path(path_folder@, fmd.title@, fmd.extension@)
                && res->Ok_0.bytes@ == b,
            None => res is Err && res->Err_0@ == decode_failure(),
        },
{
    let decoded = decode_base64(fmd.content.as_str());
    file_from_decoded(path_folder, fmd, decoded)
}

} // verus!
