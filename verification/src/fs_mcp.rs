use vstd::prelude::*;
use base64::Engine;
use vstd::utf8::{decode_utf8, is_continuation_byte, is_leading_byte_width_2, is_leading_byte_width_3, is_leading_byte_width_4, valid_utf8};
use crate::text::{lemma_text_lt_irreflexive, lemma_text_lt_transitive, text_less, text_lt, chars_of, decimal, decimal_string, join2, owned, same_text, string_from};

verus! {

/// Characters read by default.
pub const MAX_READ_CHARS: usize = 20000;

/// Largest image read, in bytes.
pub const MAX_READ_IMAGE_BYTES: u64 = 5242880;

/// Entries listed by default.
pub const MAX_LIST_ENTRIES: usize = 200;

/// Entries found by a search by default.
pub const MAX_SEARCH_ENTRIES: usize = 100;

/// Deepest level a recursive listing goes to.
pub const MAX_RECURSE_DEPTH: usize = 10;

/// Largest total size extracted from an archive, in bytes.
pub const MAX_EXTRACT_BYTES: u64 = 536870912;

/// Names of extracted entries listed in an unzip summary.
pub const MAX_LISTED_NAMES: usize = 20;

/// The default `max_chars` of `read_file`.
pub fn default_max_chars() -> (r: usize)
    ensures
        r == MAX_READ_CHARS,
{
    MAX_READ_CHARS
}

/// The default `max_entries` of `list_files`.
pub fn default_max_entries() -> (r: usize)
    ensures
        r == MAX_LIST_ENTRIES,
{
    MAX_LIST_ENTRIES
}

/// The default `max_entries` of `search_files`.
pub fn default_max_search_entries() -> (r: usize)
    ensures
        r == MAX_SEARCH_ENTRIES,
{
    MAX_SEARCH_ENTRIES
}

pub struct ReadFileArgs {
    pub path: String,
    pub max_chars: usize,
}

pub struct ListFilesArgs {
    pub path: String,
    pub recursive: bool,
    pub max_entries: usize,
}

pub struct ReadImageArgs {
    pub path: String,
}

pub struct WriteFileArgs {
    pub path: String,
    pub content: String,
    pub overwrite: bool,
}

pub struct CreateDirArgs {
    pub path: String,
}

pub struct DeleteFileArgs {
    pub path: String,
    pub recursive: bool,
}

pub struct MoveFileArgs {
    pub from: String,
    pub to: String,
    pub overwrite: bool,
}

pub struct CopyFileArgs {
    pub from: String,
    pub to: String,
    pub overwrite: bool,
}

pub struct SearchFilesArgs {
    pub root: String,
    pub pattern: String,
    pub max_entries: usize,
}

pub struct FileInfoArgs {
    pub path: String,
}

pub struct UnzipFileArgs {
    pub zip_path: String,
    pub extract_to: Option<String>,
}

/// A file-system tool server.
pub struct FileSystemServer;

impl FileSystemServer {
    /// A server; it holds no state.
    pub fn new() -> (s: FileSystemServer)
        ensures
            s == FileSystemServer,
    {
        FileSystemServer
    }
}

impl Default for FileSystemServer {
    fn default() -> (s: FileSystemServer)
        ensures
            s == FileSystemServer,
    {
        FileSystemServer::new()
    }
}

/// One entry of a listing or a search.
pub struct FileEntry {
    pub name: String,
    pub kind: String,
    pub size: u64,
    pub size_human: String,
    pub modified: String,
}

/// The characters of the text that `String::from_utf8_lossy` makes of
/// `bytes` (invalid sequences replaced by U+FFFD).
pub uninterp spec fn lossy_utf8(bytes: Seq<u8>) -> Seq<char>;

/// `String::from_utf8`: the text when the bytes are valid UTF-8. As std
/// documents it, it fails exactly when the bytes are not valid UTF-8.
#[verifier::external_body]
fn utf8_text(bytes: Vec<u8>) -> (r: Result<String, Vec<u8>>)
    ensures
        r is Ok <==> valid_utf8(bytes@),
        r matches Ok(s) ==> s@ == decode_utf8(bytes@),
        r matches Err(b) ==> b@ == bytes@,
{
    match String::from_utf8(bytes) {
        Ok(s) => Ok(s),
        Err(e) => Err(e.into_bytes()),
    }
}

/// `String::from_utf8_lossy`. Claimed: the result depends on the bytes alone.
#[verifier::external_body]
fn lossy_text(bytes: &Vec<u8>) -> (r: String)
    ensures
        r@ == lossy_utf8(bytes@),
{
    String::from_utf8_lossy(bytes.as_slice()).into_owned()
}

/// How many bytes to read for at most `max_chars` characters: four per
/// character and four more, saturating at `u64::MAX`.
pub open spec fn read_limit_of(max_chars: usize) -> int {
    if max_chars * 4 + 4 > u64::MAX {
        u64::MAX as int
    } else {
        max_chars * 4 + 4
    }
}

/// How many bytes to read for at most `max_chars` characters (see
/// `read_limit_of`).
pub fn read_limit(max_chars: usize) -> (r: u64)
    ensures
        r == read_limit_of(max_chars),
{
    let m = max_chars as u64;
    if m > (u64::MAX - 4) / 4 {
        u64::MAX
    } else {
        m * 4 + 4
    }
}

/// The width announced by a leading byte of a multi-byte UTF-8 sequence (0
/// for any other byte).
pub open spec fn lead_width(b: u8) -> int {
    if is_leading_byte_width_2(b) {
        2
    } else if is_leading_byte_width_3(b) {
        3
    } else if is_leading_byte_width_4(b) {
        4
    } else {
        0
    }
}

/// The number of trailing bytes that open a character the bytes stop inside
/// of: a leading byte announcing more than `k` bytes followed by `k - 1`
/// continuation bytes, for `k` from 1 to 3; 0 when the bytes end on a whole
/// character or on anything else.
pub open spec fn unfinished_tail(bytes: Seq<u8>) -> int {
    let n = bytes.len() as int;
    if n >= 1 && lead_width(bytes[n - 1]) > 1 {
        1
    } else if n >= 2 && is_continuation_byte(bytes[n - 1]) && lead_width(bytes[n - 2]) > 2 {
        2
    } else if n >= 3 && is_continuation_byte(bytes[n - 1]) && is_continuation_byte(bytes[n - 2])
        && lead_width(bytes[n - 3]) > 3 {
        3
    } else {
        0
    }
}

/// The bytes that are decoded: when the read stopped at the limit, the
/// character it cut in two is left out.
pub open spec fn kept_bytes(bytes: Seq<u8>, max_chars: usize) -> Seq<u8> {
    if bytes.len() == read_limit_of(max_chars) {
        bytes.take(bytes.len() - unfinished_tail(bytes))
    } else {
        bytes
    }
}

fn lead_width_of(b: u8) -> (r: usize)
    ensures
        r == lead_width(b),
{
    if 0xc0 <= b && b <= 0xdf {
        2
    } else if 0xe0 <= b && b <= 0xef {
        3
    } else if 0xf0 <= b && b <= 0xf7 {
        4
    } else {
        0
    }
}

fn is_continuation(b: u8) -> (r: bool)
    ensures
        r == is_continuation_byte(b),
{
    0x80 <= b && b <= 0xbf
}

/// The length of the unfinished character at the end of the bytes (see
/// `unfinished_tail`).
pub fn unfinished_tail_len(bytes: &Vec<u8>) -> (r: usize)
    ensures
        r == unfinished_tail(bytes@),
        r <= 3,
        r <= bytes@.len(),
{
    let n = bytes.len();
    if n >= 1 && lead_width_of(bytes[n - 1]) > 1 {
        1
    } else if n >= 2 && is_continuation(bytes[n - 1]) && lead_width_of(bytes[n - 2]) > 2 {
        2
    } else if n >= 3 && is_continuation(bytes[n - 1]) && is_continuation(bytes[n - 2])
        && lead_width_of(bytes[n - 3]) > 3 {
        3
    } else {
        0
    }
}

/// The characters of a file's bytes: the decoded text when they are valid
/// UTF-8, else a warning line followed by the lossy decoding.
pub open spec fn file_chars(bytes: Seq<u8>) -> Seq<char> {
    if valid_utf8(bytes) {
        decode_utf8(bytes)
    } else {
        "[警告: 文件不是合法 UTF-8，已按 lossy 解码]\n"@ + lossy_utf8(bytes)
    }
}

/// What `read_file` answers for the bytes read with `read_limit(max_chars)`:
/// the text of the kept bytes (see `kept_bytes`), cut after `max_chars`
/// characters with a note giving the total.
pub open spec fn read_file_text(bytes: Seq<u8>, max_chars: usize) -> Seq<char> {
    let text = file_chars(kept_bytes(bytes, max_chars));
    if text.len() > max_chars {
        text.take(max_chars as int) + "\n\n[已截断: 共 "@ + decimal(text.len()) + " 字符，仅显示前 "@
            + decimal(max_chars as nat) + " 字符]"@
    } else {
        text
    }
}

/// The answer to `read_file` never shows more than `max_chars` characters
/// of the file: a text of at most `max_chars` characters comes back whole;
/// a longer one is cut after exactly its first `max_chars` characters, and
/// what follows is the note giving the text's length and `max_chars`.
pub proof fn lemma_read_file_text_is_cut_at_max_chars(bytes: Seq<u8>, max_chars: usize)
    ensures
        ({
            let text = file_chars(kept_bytes(bytes, max_chars));
            let r = read_file_text(bytes, max_chars);
            &&& text.len() <= max_chars ==> r == text
            &&& text.len() > max_chars ==> {
                &&& r.take(max_chars as int) == text.take(max_chars as int)
                &&& r.skip(max_chars as int) == "\n\n[已截断: 共 "@ + decimal(text.len()) + " 字符，仅显示前 "@
                    + decimal(max_chars as nat) + " 字符]"@
            }
        }),
{
    let text = file_chars(kept_bytes(bytes, max_chars));
    let r = read_file_text(bytes, max_chars);
    if text.len() > max_chars {
        assert(r.take(max_chars as int) =~= text.take(max_chars as int));
        assert(r.skip(max_chars as int) =~= "\n\n[已截断: 共 "@ + decimal(text.len()) + " 字符，仅显示前 "@
            + decimal(max_chars as nat) + " 字符]"@);
    }
}

/// Only a character cut by the read limit is left out: the bytes decoded are
/// all the bytes read when the read stopped short of the limit, and
/// otherwise all of them but at most the last three, which then open a
/// character that the bytes do not finish.
pub proof fn lemma_kept_bytes_drop_only_a_cut_character(bytes: Seq<u8>, max_chars: usize)
    ensures
        ({
            let kept = kept_bytes(bytes, max_chars);
            let d = bytes.len() - kept.len();
            &&& kept == bytes.take(kept.len() as int)
            &&& 0 <= d <= 3
            &&& bytes.len() != read_limit_of(max_chars) ==> kept == bytes
            &&& d > 0 ==> lead_width(bytes[kept.len() as int]) > d && forall|j: int|
                kept.len() < j < bytes.len() ==> is_continuation_byte(#[trigger] bytes[j])
        }),
{
    let kept = kept_bytes(bytes, max_chars);
    assert(kept =~= bytes.take(kept.len() as int));
}

/// Renders the bytes read from a file (see `read_file_text`).
pub fn render_file_text(bytes: Vec<u8>, max_chars: usize) -> (r: String)
    ensures
        r@ == read_file_text(bytes@, max_chars),
{
    let mut bytes = bytes;
    let ghost all = bytes@;
    let limit = read_limit(max_chars);
    if bytes.len() as u64 == limit {
        let k = unfinished_tail_len(&bytes);
        let keep = bytes.len() - k;
        bytes.truncate(keep);
    }
    assert(bytes@ =~= kept_bytes(all, max_chars));
    let text = match utf8_text(bytes) {
        Ok(t) => t,
        Err(b) => {
            let lossy = lossy_text(&b);
            join2("[警告: 文件不是合法 UTF-8，已按 lossy 解码]\n", lossy.as_str())
        },
    };
    let chars = chars_of(text.as_str());
    let total = chars.len();
    if total > max_chars {
        let head = string_from(&chars, 0, max_chars);
        let s = join2(head.as_str(), "\n\n[已截断: 共 ");
        let s = join2(s.as_str(), decimal_string(total as u64).as_str());
        let s = join2(s.as_str(), " 字符，仅显示前 ");
        let s = join2(s.as_str(), decimal_string(max_chars as u64).as_str());
        let s = join2(s.as_str(), " 字符]");
        assert(chars@.subrange(0, max_chars as int) =~= text@.take(max_chars as int));
        s
    } else {
        text
    }
}


/// The error for a path that is not there.
pub open spec fn missing_path(path: Seq<char>) -> Seq<char> {
    "路径不存在: "@ + path
}

/// The error when a target exists and may not be overwritten.
pub open spec fn target_exists(path: Seq<char>) -> Seq<char> {
    "目标已存在（如需覆盖请设置 overwrite=true）: "@ + path
}

/// Checks before reading a text file.
pub fn check_read_file(path: &str, present: bool, is_dir: bool) -> (r: Result<(), String>)
    ensures
        r is Ok <==> present && !is_dir,
        r matches Err(e) ==> e@ == if !present {
            "文件不存在: "@ + path@
        } else {
            "这是一个目录，请使用 list_files: "@ + path@
        },
{
    if !present {
        return Err(join2("文件不存在: ", path));
    }
    if is_dir {
        return Err(join2("这是一个目录，请使用 list_files: ", path));
    }
    Ok(())
}

/// Checks before reading an image.
pub fn check_read_image(path: &str, present: bool, is_dir: bool) -> (r: Result<(), String>)
    ensures
        r is Ok <==> present && !is_dir,
        r matches Err(e) ==> e@ == if !present {
            "文件不存在: "@ + path@
        } else {
            "这是一个目录，图片无法读取: "@ + path@
        },
{
    if !present {
        return Err(join2("文件不存在: ", path));
    }
    if is_dir {
        return Err(join2("这是一个目录，图片无法读取: ", path));
    }
    Ok(())
}

/// Whether an image of `len` bytes is too large to read.
pub fn image_too_large(len: u64) -> (r: bool)
    ensures
        r == (len > MAX_READ_IMAGE_BYTES),
{
    len > MAX_READ_IMAGE_BYTES
}

/// The text that `str::to_lowercase` makes of `s`.
pub uninterp spec fn lowercase(s: Seq<char>) -> Seq<char>;

/// `str::to_lowercase`. Claimed: the result depends on `s` alone.
#[verifier::external_body]
fn to_lower(s: &str) -> (r: String)
    ensures
        r@ == lowercase(s@),
{
    s.to_lowercase()
}

/// The media type of an image with a (lower-case) extension.
pub open spec fn mime_of(ext: Seq<char>) -> Option<Seq<char>> {
    if ext == "png"@ {
        Some("image/png"@)
    } else if ext == "jpg"@ || ext == "jpeg"@ {
        Some("image/jpeg"@)
    } else if ext == "gif"@ {
        Some("image/gif"@)
    } else if ext == "webp"@ {
        Some("image/webp"@)
    } else if ext == "bmp"@ {
        Some("image/bmp"@)
    } else if ext == "svg"@ {
        Some("image/svg+xml"@)
    } else {
        None
    }
}

/// The media type for a file extension, compared in lower case; an
/// unsupported extension is an error naming it.
pub fn image_mime(extension: &str) -> (r: Result<&'static str, String>)
    ensures
        r is Ok <==> mime_of(lowercase(extension@)) is Some,
        r matches Ok(m) ==> Some(m@) == mime_of(lowercase(extension@)),
        r matches Err(e) ==> e@ == "不支持的图片格式: ."@ + lowercase(extension@),
{
    let ext = to_lower(extension);
    if same_text(&ext, "png") {
        Ok("image/png")
    } else if same_text(&ext, "jpg") || same_text(&ext, "jpeg") {
        Ok("image/jpeg")
    } else if same_text(&ext, "gif") {
        Ok("image/gif")
    } else if same_text(&ext, "webp") {
        Ok("image/webp")
    } else if same_text(&ext, "bmp") {
        Ok("image/bmp")
    } else if same_text(&ext, "svg") {
        Ok("image/svg+xml")
    } else {
        Err(join2("不支持的图片格式: .", ext.as_str()))
    }
}

/// The character of a 6-bit value in the standard base64 alphabet:
/// `A`-`Z`, `a`-`z`, `0`-`9`, `+`, `/`.
pub open spec fn base64_digit(v: int) -> char {
    if v < 26 {
        (65 + v) as char
    } else if v < 52 {
        (97 + v - 26) as char
    } else if v < 62 {
        (48 + v - 52) as char
    } else if v == 62 {
        '+'
    } else {
        '/'
    }
}

/// The standard base64 encoding of `bytes`, with padding: every three bytes
/// become four digits of six bits each; a last group of one or two bytes
/// becomes two or three digits (the missing bits zero) followed by `=`
/// up to four characters.
pub open spec fn base64_standard(bytes: Seq<u8>) -> Seq<char>
    decreases bytes.len(),
{
    if bytes.len() == 0 {
        Seq::empty()
    } else if bytes.len() == 1 {
        let b0 = bytes[0] as int;
        seq![base64_digit(b0 / 4), base64_digit((b0 % 4) * 16), '=', '=']
    } else if bytes.len() == 2 {
        let b0 = bytes[0] as int;
        let b1 = bytes[1] as int;
        seq![
            base64_digit(b0 / 4),
            base64_digit((b0 % 4) * 16 + b1 / 16),
            base64_digit((b1 % 16) * 4),
            '=',
        ]
    } else {
        let b0 = bytes[0] as int;
        let b1 = bytes[1] as int;
        let b2 = bytes[2] as int;
        seq![
            base64_digit(b0 / 4),
            base64_digit((b0 % 4) * 16 + b1 / 16),
            base64_digit((b1 % 16) * 4 + b2 / 64),
            base64_digit(b2 % 64),
        ] + base64_standard(bytes.skip(3))
    }
}

/// `base64::engine::general_purpose::STANDARD.encode`: the standard
/// alphabet with padding (see `base64_standard`). The crate panics when the
/// encoded length overflows `usize`, which the bound on the input rules out.
#[verifier::external_body]
fn encode_base64(bytes: &Vec<u8>) -> (r: String)
    requires
        bytes@.len() <= usize::MAX / 2,
    ensures
        r@ == base64_standard(bytes@),
{
    base64::engine::general_purpose::STANDARD.encode(bytes.as_slice())
}

/// A data URI holding an image.
pub fn image_data_uri(mime: &str, bytes: &Vec<u8>) -> (r: String)
    requires
        bytes@.len() <= usize::MAX / 2,
    ensures
        r@ == "data:"@ + mime@ + ";base64,"@ + base64_standard(bytes@),
{
    let encoded = encode_base64(bytes);
    join2(join2(join2("data:", mime).as_str(), ";base64,").as_str(), encoded.as_str())
}

/// Checks before writing a file.
pub fn check_write(path: &str, present: bool, overwrite: bool) -> (r: Result<(), String>)
    ensures
        r is Ok <==> !present || overwrite,
        r matches Err(e) ==> e@ == "文件已存在（如需覆盖请设置 overwrite=true）: "@ + path@,
{
    if present && !overwrite {
        return Err(join2("文件已存在（如需覆盖请设置 overwrite=true）: ", path));
    }
    Ok(())
}

/// The report of a write.
pub fn write_report(content: &str, path: &str) -> (r: String)
    ensures
        r@ == "已写入 "@ + decimal(content@.len()) + " 字符到 "@ + path@,
{
    let n = chars_of(content).len();
    let s = join2("已写入 ", decimal_string(n as u64).as_str());
    join2(join2(s.as_str(), " 字符到 ").as_str(), path)
}

/// The report of a directory creation.
pub fn create_dir_report(path: &str) -> (r: String)
    ensures
        r@ == "已创建目录: "@ + path@,
{
    join2("已创建目录: ", path)
}

/// How a path is deleted.
#[derive(Debug, PartialEq, Eq, Structural)]
pub enum DeleteAction {
    /// Remove an empty directory.
    RemoveEmptyDir,
    /// Remove a directory and everything in it.
    RemoveDirAll,
    /// Remove a file.
    RemoveFile,
}

/// How to delete a path: a missing path is an error; an empty directory
/// is removed; a non-empty one only when `recursive`; anything else is
/// removed as a file.
pub fn plan_delete(path: &str, present: bool, is_dir: bool, dir_is_empty: bool, recursive: bool) -> (r: Result<
    DeleteAction,
    String,
>)
    ensures
        !present ==> (r matches Err(e) && e@ == missing_path(path@)),
        present && is_dir && dir_is_empty ==> r == Ok::<DeleteAction, String>(DeleteAction::RemoveEmptyDir),
        present && is_dir && !dir_is_empty && recursive ==> r == Ok::<DeleteAction, String>(
            DeleteAction::RemoveDirAll,
        ),
        present && is_dir && !dir_is_empty && !recursive ==> (r matches Err(e) && e@
            == "目录非空（如需递归删除请设置 recursive=true）: "@ + path@),
        present && !is_dir ==> r == Ok::<DeleteAction, String>(DeleteAction::RemoveFile),
{
    if !present {
        return Err(join2("路径不存在: ", path));
    }
    if is_dir {
        if dir_is_empty {
            Ok(DeleteAction::RemoveEmptyDir)
        } else if recursive {
            Ok(DeleteAction::RemoveDirAll)
        } else {
            Err(join2("目录非空（如需递归删除请设置 recursive=true）: ", path))
        }
    } else {
        Ok(DeleteAction::RemoveFile)
    }
}

/// The report of a deletion.
pub fn delete_report(path: &str) -> (r: String)
    ensures
        r@ == "已删除: "@ + path@,
{
    join2("已删除: ", path)
}

/// What has to be cleared before a move.
#[derive(Debug, PartialEq, Eq, Structural)]
pub enum ClearTarget {
    /// The target is free.
    Nothing,
    /// Remove the target directory and everything in it.
    RemoveDirAll,
    /// Remove the target file.
    RemoveFile,
}

/// How to make room for a move: a missing source is an error; an existing
/// target is an error unless `overwrite`, in which case it is removed.
pub fn plan_move(
    from: &str,
    to: &str,
    from_present: bool,
    to_present: bool,
    to_is_dir: bool,
    overwrite: bool,
) -> (r: Result<ClearTarget, String>)
    ensures
        !from_present ==> (r matches Err(e) && e@ == "源路径不存在: "@ + from@),
        from_present && to_present && !overwrite ==> (r matches Err(e) && e@ == target_exists(to@)),
        from_present && to_present && overwrite ==> r == Ok::<ClearTarget, String>(
            if to_is_dir { ClearTarget::RemoveDirAll } else { ClearTarget::RemoveFile },
        ),
        from_present && !to_present ==> r == Ok::<ClearTarget, String>(ClearTarget::Nothing),
{
    if !from_present {
        return Err(join2("源路径不存在: ", from));
    }
    if to_present {
        if !overwrite {
            return Err(join2("目标已存在（如需覆盖请设置 overwrite=true）: ", to));
        }
        if to_is_dir {
            return Ok(ClearTarget::RemoveDirAll);
        }
        return Ok(ClearTarget::RemoveFile);
    }
    Ok(ClearTarget::Nothing)
}

/// The report of a move.
pub fn move_report(from: &str, to: &str) -> (r: String)
    ensures
        r@ == "已移动: "@ + from@ + " -> "@ + to@,
{
    join2(join2(join2("已移动: ", from).as_str(), " -> ").as_str(), to)
}

/// Checks before a copy: the source must be a file that present, and an
/// existing target needs `overwrite`.
pub fn check_copy(from: &str, to: &str, from_present: bool, from_is_dir: bool, to_present: bool, overwrite: bool) -> (r:
    Result<(), String>)
    ensures
        r is Ok <==> from_present && !from_is_dir && (!to_present || overwrite),
        r matches Err(e) ==> e@ == if !from_present {
            "源文件不存在: "@ + from@
        } else if from_is_dir {
            "源路径是目录，请使用 move_file: "@ + from@
        } else {
            target_exists(to@)
        },
{
    if !from_present {
        return Err(join2("源文件不存在: ", from));
    }
    if from_is_dir {
        return Err(join2("源路径是目录，请使用 move_file: ", from));
    }
    if to_present && !overwrite {
        return Err(join2("目标已存在（如需覆盖请设置 overwrite=true）: ", to));
    }
    Ok(())
}

/// The report of a copy.
pub fn copy_report(from: &str, to: &str) -> (r: String)
    ensures
        r@ == "已复制: "@ + from@ + " -> "@ + to@,
{
    join2(join2(join2("已复制: ", from).as_str(), " -> ").as_str(), to)
}


/// Checks before listing a directory; gives the depth to descend to.
pub fn check_list_dir(path: &str, present: bool, is_dir: bool, recursive: bool) -> (r: Result<usize, String>)
    ensures
        r is Ok <==> present && is_dir,
        r matches Ok(d) ==> d == if recursive { MAX_RECURSE_DEPTH } else { 0 },
        r matches Err(e) ==> e@ == if !present { missing_path(path@) } else { "不是目录: "@ + path@ },
{
    if !present {
        return Err(join2("路径不存在: ", path));
    }
    if !is_dir {
        return Err(join2("不是目录: ", path));
    }
    Ok(if recursive { MAX_RECURSE_DEPTH } else { 0 })
}

/// Checks the root of a search.
pub fn check_search_root(root: &str, is_dir: bool) -> (r: Result<(), String>)
    ensures
        r is Ok <==> is_dir,
        r matches Err(e) ==> e@ == "根目录不存在或不是目录: "@ + root@,
{
    if !is_dir {
        return Err(join2("根目录不存在或不是目录: ", root));
    }
    Ok(())
}

/// The text with every backslash turned into a slash.
pub open spec fn slashes(s: Seq<char>) -> Seq<char> {
    s.map_values(|c: char| if c == '\\' { '/' } else { c })
}

/// A search pattern with backslashes turned into slashes.
pub fn normalize_pattern(pattern: &str) -> (r: String)
    ensures
        r@ == slashes(pattern@),
{
    let chars = chars_of(pattern);
    let mut r = String::new();
    let n = chars.len();
    let mut i: usize = 0;
    while i < n
        invariant
            i <= n,
            n == chars@.len(),
            r@ == slashes(chars@).take(i as int),
        decreases n - i,
    {
        let c = chars[i];
        crate::text::push_char(&mut r, if c == '\\' { '/' } else { c });
        assert(r@ =~= slashes(chars@).take(i + 1));
        i = i + 1;
    }
    assert(slashes(chars@).take(n as int) =~= slashes(pattern@));
    r
}

/// The answer of a listing or a search that found nothing: an empty JSON
/// array.
pub fn empty_listing() -> (r: String)
    ensures
        r@ == "[]"@,
{
    owned("[]")
}

/// Checks that an archive is there.
pub fn check_zip(zip_path: &str, present: bool) -> (r: Result<(), String>)
    ensures
        r is Ok <==> present,
        r matches Err(e) ==> e@ == "Zip file: "@ + zip_path@ + " does not exist"@,
{
    if !present {
        return Err(join2(join2("Zip file: ", zip_path).as_str(), " does not exist"));
    }
    Ok(())
}

/// Whether the bytes extracted so far exceed the limit.
pub fn extraction_over_limit(total: u64) -> (r: bool)
    ensures
        r == (total > MAX_EXTRACT_BYTES),
{
    total > MAX_EXTRACT_BYTES
}

/// The progress of an extraction: the names of the entries extracted so
/// far, in archive order, and the bytes written for them.
pub struct Extraction {
    names: Vec<String>,
    total: u64,
}

impl Extraction {
    /// The names extracted so far.
    pub closed spec fn names_spec(&self) -> Seq<Seq<char>> {
        self.names@.map_values(|s: String| s@)
    }

    /// The bytes written so far (saturating at `u64::MAX`).
    pub closed spec fn total_spec(&self) -> u64 {
        self.total
    }

    /// Nothing extracted yet.
    pub fn new() -> (x: Extraction)
        ensures
            x.names_spec() == Seq::<Seq<char>>::empty(),
            x.total_spec() == 0,
    {
        let x = Extraction { names: Vec::new(), total: 0 };
        assert(x.names_spec() =~= Seq::<Seq<char>>::empty());
        x
    }

    /// Records an extracted entry and the bytes written for it (0 for a
    /// directory); answers whether the total now exceeds
    /// `MAX_EXTRACT_BYTES`, in which case the extraction is given up.
    pub fn record(&mut self, name: String, written: u64) -> (over: bool)
        ensures
            final(self).names_spec() == old(self).names_spec().push(name@),
            final(self).total_spec() == if old(self).total_spec() + written > u64::MAX {
                u64::MAX as int
            } else {
                old(self).total_spec() + written
            },
            over == (final(self).total_spec() > MAX_EXTRACT_BYTES),
    {
        let ghost before = self.names@;
        self.names.push(name);
        assert(self.names@.map_values(|s: String| s@) =~= before.map_values(|s: String| s@).push(
            name@,
        ));
        self.total = if self.total > u64::MAX - written {
            u64::MAX
        } else {
            self.total + written
        };
        extraction_over_limit(self.total)
    }

    /// The bytes written so far.
    pub fn total(&self) -> (t: u64)
        ensures
            t == self.total_spec(),
    {
        self.total
    }

    /// The summary of the extraction (see `unzip_text`).
    pub fn summary(&self, size_text: &str, dest: &str) -> (r: String)
        ensures
            r@ == unzip_text(self.names_spec(), size_text@, dest@),
    {
        unzip_summary(&self.names, size_text, dest)
    }
}

/// One line per listed name.
pub open spec fn name_lines(names: Seq<Seq<char>>) -> Seq<char>
    decreases names.len(),
{
    if names.len() == 0 {
        Seq::empty()
    } else {
        name_lines(names.drop_last()) + "- "@ + names.last() + "\n"@
    }
}

/// The summary of an extraction: the count, the total size (as text) and
/// the destination, then the first `MAX_LISTED_NAMES` names, then how many
/// more there were.
pub open spec fn unzip_text(names: Seq<Seq<char>>, size_text: Seq<char>, dest: Seq<char>) -> Seq<char> {
    let head = "Extracted "@ + decimal(names.len()) + " files ("@ + size_text + " in total) to "@ + dest
        + "\n\nContents:\n"@;
    let listed = if names.len() > MAX_LISTED_NAMES { names.take(MAX_LISTED_NAMES as int) } else { names };
    let more = if names.len() > MAX_LISTED_NAMES {
        "... and "@ + decimal((names.len() - MAX_LISTED_NAMES) as nat) + " more files\n"@
    } else {
        Seq::empty()
    };
    head + name_lines(listed) + more
}

/// Summarises an extraction (see `unzip_text`).
pub fn unzip_summary(names: &Vec<String>, size_text: &str, dest: &str) -> (r: String)
    ensures
        r@ == unzip_text(names@.map_values(|s: String| s@), size_text@, dest@),
{
    let ghost views = names@.map_values(|s: String| s@);
    let n = names.len();
    let s = join2("Extracted ", decimal_string(n as u64).as_str());
    let s = join2(s.as_str(), " files (");
    let s = join2(s.as_str(), size_text);
    let s = join2(s.as_str(), " in total) to ");
    let s = join2(s.as_str(), dest);
    let mut s = join2(s.as_str(), "\n\nContents:\n");
    let ghost head = s@;
    let listed: usize = if n > MAX_LISTED_NAMES { MAX_LISTED_NAMES } else { n };
    let mut i: usize = 0;
    assert(views.take(0) =~= Seq::<Seq<char>>::empty());
    while i < listed
        invariant
            i <= listed <= n,
            n == names@.len(),
            views == names@.map_values(|s: String| s@),
            s@ == head + name_lines(views.take(i as int)),
        decreases listed - i,
    {
        assert(views.take(i + 1).drop_last() =~= views.take(i as int));
        assert(views.take(i + 1).last() == names@[i as int]@);
        s.append("- ");
        s.append(names[i].as_str());
        s.append("\n");
        i = i + 1;
    }
    if n > MAX_LISTED_NAMES {
        assert(views.take(listed as int) =~= views.take(MAX_LISTED_NAMES as int));
        s.append("... and ");
        s.append(decimal_string((n - MAX_LISTED_NAMES) as u64).as_str());
        s.append(" more files\n");
    } else {
        assert(views.take(listed as int) =~= views);
    }
    s
}


/// Whether entry `x` is listed before entry `y`: by kind, then by name.
pub open spec fn entry_lt(x: FileEntry, y: FileEntry) -> bool {
    text_lt(x.kind@, y.kind@) || (x.kind@ == y.kind@ && text_lt(x.name@, y.name@))
}

/// Whether the entries are in listing order.
pub open spec fn entries_sorted(s: Seq<FileEntry>) -> bool {
    forall|i: int, j: int| 0 <= i < j < s.len() ==> !entry_lt(#[trigger] s[j], #[trigger] s[i])
}

proof fn lemma_entry_lt_irreflexive(x: FileEntry)
    ensures
        !entry_lt(x, x),
{
    lemma_text_lt_irreflexive(x.kind@, 0);
    lemma_text_lt_irreflexive(x.name@, 0);
}

proof fn lemma_entry_lt_transitive(x: FileEntry, y: FileEntry, z: FileEntry)
    requires
        entry_lt(x, y),
        entry_lt(y, z),
    ensures
        entry_lt(x, z),
{
    if text_lt(x.kind@, y.kind@) && text_lt(y.kind@, z.kind@) {
        lemma_text_lt_transitive(x.kind@, y.kind@, z.kind@, 0);
    } else if x.kind@ == y.kind@ && y.kind@ == z.kind@ {
        lemma_text_lt_transitive(x.name@, y.name@, z.name@, 0);
    }
}

/// Whether two entries have the same kind and name.
pub open spec fn same_key(x: FileEntry, y: FileEntry) -> bool {
    x.kind@ == y.kind@ && x.name@ == y.name@
}

/// Whether `out` is `src` rearranged by `perm` (`out[k]` is `src[perm[k]]`),
/// with entries of the same kind and name left in their order in `src`.
pub open spec fn is_stable_perm(src: Seq<FileEntry>, out: Seq<FileEntry>, perm: Seq<int>) -> bool {
    &&& perm.len() == out.len()
    &&& out.len() == src.len()
    &&& forall|k: int| 0 <= k < out.len() ==> 0 <= #[trigger] perm[k] < src.len() && out[k] == src[perm[k]]
    &&& forall|a: int, b: int| 0 <= a < b < out.len() ==> perm[a] != perm[b]
    &&& forall|a: int, b: int|
        #![trigger out[a], out[b]]
        0 <= a < b < out.len() && same_key(out[a], out[b]) ==> perm[a] < perm[b]
}

/// Puts entries in listing order: by kind (so `dir` before `file`), then by
/// name; entries with the same kind and name keep their order.
pub fn sort_entries(entries: Vec<FileEntry>) -> (r: Vec<FileEntry>)
    ensures
        entries_sorted(r@),
        exists|perm: Seq<int>| is_stable_perm(entries@, r@, perm),
{
    let ghost src = entries@;
    let n = entries.len();
    let mut rest = entries;
    let mut sorted: Vec<FileEntry> = Vec::new();
    let ghost mut perm: Seq<int> = Seq::empty();
    let mut i: usize = 0;
    while i < n
        invariant
            i <= n,
            n == src.len(),
            rest@ == src.subrange(i as int, n as int),
            entries_sorted(sorted@),
            perm.len() == sorted@.len(),
            sorted@.len() == i,
            forall|k: int| 0 <= k < i ==> 0 <= #[trigger] perm[k] < i && sorted@[k] == src[perm[k]],
            forall|a: int, b: int| 0 <= a < b < i ==> perm[a] != perm[b],
            forall|a: int, b: int|
                #![trigger sorted@[a], sorted@[b]]
                0 <= a < b < i && same_key(sorted@[a], sorted@[b]) ==> perm[a] < perm[b],
        decreases n - i,
    {
        let x = rest.remove(0);
        assert(x == src[i as int]);
        let mut p: usize = 0;
        let m = sorted.len();
        while p < m && !entry_lt_exec(&x, &sorted[p])
            invariant
                p <= m,
                m == sorted@.len(),
                forall|k: int| 0 <= k < p ==> !entry_lt(x, #[trigger] sorted@[k]),
            decreases m - p,
        {
            p = p + 1;
        }
        let ghost old_sorted = sorted@;
        let ghost old_perm = perm;
        sorted.insert(p, x);
        proof {
            perm = old_perm.insert(p as int, i as int);
            assert(sorted@ == old_sorted.insert(p as int, x));
            assert forall|a: int, b: int| 0 <= a < b < sorted@.len() implies !entry_lt(
                #[trigger] sorted@[b],
                #[trigger] sorted@[a],
            ) by {
                if b < p {
                    assert(sorted@[b] == old_sorted[b]);
                    assert(sorted@[a] == old_sorted[a]);
                } else if a < p && b == p {
                } else if a < p && b > p {
                    assert(sorted@[b] == old_sorted[b - 1]);
                } else if a == p {
                    assert(entry_lt(x, old_sorted[p as int]));
                    assert(sorted@[b] == old_sorted[b - 1]);
                    if entry_lt(sorted@[b], x) {
                        lemma_entry_lt_transitive(sorted@[b], x, old_sorted[p as int]);
                        if b - 1 == p {
                            lemma_entry_lt_irreflexive(old_sorted[p as int]);
                        }
                    }
                } else {
                    assert(sorted@[b] == old_sorted[b - 1]);
                    assert(sorted@[a] == old_sorted[a - 1]);
                }
            }
            assert forall|k: int| 0 <= k < i + 1 implies 0 <= #[trigger] perm[k] < i + 1 && sorted@[k]
                == src[perm[k]] by {
                if k < p {
                    assert(perm[k] == old_perm[k]);
                } else if k > p {
                    assert(perm[k] == old_perm[k - 1]);
                }
            }
            assert forall|a: int, b: int| 0 <= a < b < i + 1 implies perm[a] != perm[b] by {
                if a == p {
                    assert(perm[b] == old_perm[b - 1]);
                } else if b == p {
                    assert(perm[a] == old_perm[a]);
                } else if b < p {
                    assert(perm[a] == old_perm[a] && perm[b] == old_perm[b]);
                } else if a < p {
                    assert(perm[a] == old_perm[a] && perm[b] == old_perm[b - 1]);
                } else {
                    assert(perm[a] == old_perm[a - 1] && perm[b] == old_perm[b - 1]);
                }
            }
            assert forall|a: int, b: int|
                #![trigger sorted@[a], sorted@[b]]
                0 <= a < b < i + 1 && same_key(sorted@[a], sorted@[b]) implies perm[a] < perm[b] by {
                if a == p {
                    // an entry after the inserted one cannot share its key
                    assert(sorted@[b] == old_sorted[b - 1]);
                    assert(entry_lt(x, old_sorted[p as int]));
                    assert(entry_lt(sorted@[b], old_sorted[p as int]));
                    if b - 1 == p {
                        lemma_entry_lt_irreflexive(old_sorted[p as int]);
                    } else {
                        assert(!entry_lt(old_sorted[b - 1], old_sorted[p as int]));
                    }
                } else if b == p {
                    assert(perm[a] == old_perm[a]);
                } else if b < p {
                    assert(sorted@[a] == old_sorted[a] && sorted@[b] == old_sorted[b]);
                    assert(perm[a] == old_perm[a] && perm[b] == old_perm[b]);
                } else if a < p {
                    assert(sorted@[a] == old_sorted[a] && sorted@[b] == old_sorted[b - 1]);
                    assert(perm[a] == old_perm[a] && perm[b] == old_perm[b - 1]);
                } else {
                    assert(sorted@[a] == old_sorted[a - 1] && sorted@[b] == old_sorted[b - 1]);
                    assert(perm[a] == old_perm[a - 1] && perm[b] == old_perm[b - 1]);
                }
            }
        }
        i = i + 1;
    }
    assert(is_stable_perm(src, sorted@, perm));
    sorted
}

fn entry_lt_exec(x: &FileEntry, y: &FileEntry) -> (r: bool)
    ensures
        r == entry_lt(*x, *y),
{
    text_less(&x.kind, &y.kind) || (x.kind == y.kind && text_less(&x.name, &y.name))
}

/// Whether a listing holding `listed` entries has room for another.
pub fn has_room(listed: usize, max_entries: usize) -> (r: bool)
    ensures
        r == (listed < max_entries),
{
    listed < max_entries
}

/// What a recursive listing does with the next child of a directory.
#[derive(PartialEq, Eq, Structural)]
pub enum ChildStep {
    /// The listing is full: stop.
    Stop,
    /// The child's metadata could not be read: leave it out.
    Skip,
    /// List the child.
    Add,
    /// List the child, then list the directory it is, one level deeper.
    AddAndDescend,
}

/// The step for the next child, with `listed` entries so far, at `depth`: a
/// full listing stops; a child without metadata is skipped; a directory above
/// the deepest level is listed and entered when the listing still has room
/// after it; anything else is listed.
pub open spec fn child_step(
    listed: usize,
    max_entries: usize,
    readable: bool,
    is_dir: bool,
    depth: usize,
    max_depth: usize,
) -> ChildStep {
    if listed >= max_entries {
        ChildStep::Stop
    } else if !readable {
        ChildStep::Skip
    } else if is_dir && depth < max_depth && listed + 1 < max_entries {
        ChildStep::AddAndDescend
    } else {
        ChildStep::Add
    }
}

/// A recursive listing stays within its bounds: a child is listed only
/// while there is room, so the entries never outnumber `max_entries`; a
/// directory is entered only one level deeper than its parent and never past
/// `max_depth`, and only while there is room for what it holds.
pub proof fn lemma_listing_bounds(
    listed: usize,
    max_entries: usize,
    readable: bool,
    is_dir: bool,
    depth: usize,
    max_depth: usize,
)
    ensures
        ({
            let step = child_step(listed, max_entries, readable, is_dir, depth, max_depth);
            &&& (step == ChildStep::Add || step == ChildStep::AddAndDescend) ==> readable && listed + 1
                <= max_entries
            &&& step == ChildStep::AddAndDescend ==> is_dir && depth + 1 <= max_depth && listed + 1
                < max_entries
            &&& listed >= max_entries ==> step == ChildStep::Stop
        }),
{
}

/// Decides the step for the next child (see `child_step`).
pub fn visit_child(
    listed: usize,
    max_entries: usize,
    readable: bool,
    is_dir: bool,
    depth: usize,
    max_depth: usize,
) -> (r: ChildStep)
    ensures
        r == child_step(listed, max_entries, readable, is_dir, depth, max_depth),
{
    if !has_room(listed, max_entries) {
        ChildStep::Stop
    } else if !readable {
        ChildStep::Skip
    } else if is_dir && depth < max_depth && listed + 1 < max_entries {
        ChildStep::AddAndDescend
    } else {
        ChildStep::Add
    }
}

/// The sort keys of names: each name in lower case.
pub open spec fn folded_keys(names: Seq<String>) -> Seq<Seq<char>> {
    names.map_values(|s: String| lowercase(s@))
}

/// Whether `order` lists the positions `0..keys.len()` once each, by key,
/// with equal keys in the order they came in.
pub open spec fn stable_order(keys: Seq<Seq<char>>, order: Seq<usize>) -> bool {
    &&& order.len() == keys.len()
    &&& forall|k: int| 0 <= k < order.len() ==> #[trigger] order[k] < keys.len()
    &&& forall|a: int, b: int| 0 <= a < b < order.len() ==> order[a] != order[b]
    &&& forall|a: int, b: int|
        #![trigger order[a], order[b]]
        0 <= a < b < order.len() ==> !text_lt(keys[order[b] as int], keys[order[a] as int])
    &&& forall|a: int, b: int|
        #![trigger order[a], order[b]]
        0 <= a < b < order.len() && keys[order[a] as int] == keys[order[b] as int] ==> order[a]
            < order[b]
}

/// The order in which the children of a directory are visited: by name in
/// lower case, names that fold alike in the order given.
pub fn child_order(names: &Vec<String>) -> (order: Vec<usize>)
    ensures
        stable_order(folded_keys(names@), order@),
{
    let n = names.len();
    let mut keys: Vec<String> = Vec::new();
    let mut j: usize = 0;
    while j < n
        invariant
            j <= n,
            n == names@.len(),
            keys@.len() == j,
            forall|k: int| 0 <= k < j ==> (#[trigger] keys@[k])@ == lowercase(names@[k]@),
        decreases n - j,
    {
        keys.push(to_lower(names[j].as_str()));
        j = j + 1;
    }
    let ghost kv = folded_keys(names@);
    assert forall|k: int| 0 <= k < n implies #[trigger] keys@[k]@ == kv[k] by {}
    let mut order: Vec<usize> = Vec::new();
    let mut i: usize = 0;
    while i < n
        invariant
            i <= n,
            n == names@.len(),
            n == keys@.len(),
            kv == folded_keys(names@),
            forall|k: int| 0 <= k < n ==> #[trigger] keys@[k]@ == kv[k],
            order@.len() == i,
            forall|k: int| 0 <= k < i ==> #[trigger] order@[k] < i,
            forall|a: int, b: int| 0 <= a < b < i ==> order@[a] != order@[b],
            forall|a: int, b: int|
                #![trigger order@[a], order@[b]]
                0 <= a < b < i ==> !text_lt(kv[order@[b] as int], kv[order@[a] as int]),
            forall|a: int, b: int|
                #![trigger order@[a], order@[b]]
                0 <= a < b < i && kv[order@[a] as int] == kv[order@[b] as int] ==> order@[a]
                    < order@[b],
        decreases n - i,
    {
        let ghost ki = kv[i as int];
        let mut p: usize = 0;
        let m = order.len();
        while p < m && !text_less(&keys[i], &keys[order[p]])
            invariant
                p <= m,
                m == order@.len(),
                m == i,
                i < n,
                n == keys@.len(),
                forall|k: int| 0 <= k < i ==> #[trigger] order@[k] < i,
                forall|k: int| 0 <= k < n ==> #[trigger] keys@[k]@ == kv[k],
                ki == kv[i as int],
                forall|k: int| 0 <= k < p ==> !text_lt(ki, kv[#[trigger] order@[k] as int]),
            decreases m - p,
        {
            p = p + 1;
        }
        assert(p < m ==> text_lt(ki, kv[order@[p as int] as int]));
        let ghost old_order = order@;
        order.insert(p, i);
        proof {
            assert(order@ == old_order.insert(p as int, i));
            assert forall|k: int| 0 <= k < i + 1 implies #[trigger] order@[k] < i + 1 by {
                if k < p {
                    assert(order@[k] == old_order[k]);
                } else if k > p {
                    assert(order@[k] == old_order[k - 1]);
                }
            }
            assert forall|a: int, b: int| 0 <= a < b < i + 1 implies order@[a] != order@[b] by {
                if a == p {
                    assert(order@[b] == old_order[b - 1]);
                } else if b == p {
                    assert(order@[a] == old_order[a]);
                } else if b < p {
                    assert(order@[a] == old_order[a] && order@[b] == old_order[b]);
                } else if a < p {
                    assert(order@[a] == old_order[a] && order@[b] == old_order[b - 1]);
                } else {
                    assert(order@[a] == old_order[a - 1] && order@[b] == old_order[b - 1]);
                }
            }
            assert forall|a: int, b: int| 0 <= a < b < i + 1 implies !text_lt(
                kv[order@[b] as int],
                kv[order@[a] as int],
            ) && (kv[order@[a] as int] == kv[order@[b] as int] ==> order@[a] < order@[b]) by {
                if a == p {
                    let q = old_order[b - 1];
                    assert(order@[b] == q);
                    assert(text_lt(ki, kv[old_order[p as int] as int]));
                    if b - 1 == p {
                        if text_lt(kv[q as int], ki) {
                            lemma_text_lt_transitive(kv[q as int], ki, kv[q as int], 0);
                            lemma_text_lt_irreflexive(kv[q as int], 0);
                        }
                        if kv[q as int] == ki {
                            lemma_text_lt_irreflexive(ki, 0);
                        }
                    } else {
                        assert(!text_lt(kv[q as int], kv[old_order[p as int] as int]));
                        if text_lt(kv[q as int], ki) {
                            lemma_text_lt_transitive(kv[q as int], ki, kv[old_order[p as int] as int], 0);
                        }
                    }
                } else if b == p {
                    assert(order@[a] == old_order[a]);
                } else if b < p {
                    assert(order@[a] == old_order[a] && order@[b] == old_order[b]);
                } else if a < p {
                    assert(order@[a] == old_order[a] && order@[b] == old_order[b - 1]);
                } else {
                    assert(order@[a] == old_order[a - 1] && order@[b] == old_order[b - 1]);
                }
            }
        }
        i = i + 1;
    }
    order
}

} // verus!
