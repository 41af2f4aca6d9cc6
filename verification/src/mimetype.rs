//! The MIME types of files.

use vstd::prelude::*;
use vstd::slice::slice_subrange;
use vstd::utf8::valid_utf8;
use crate::text::{ends_with, is_utf8, lowercase, to_lowercase};
use crate::utf8_cut::{begins_text, is_beginning_of_text, law_cut_text_begins_text};

verus! {

/// How much of a file is looked at to tell text from anything else, in bytes.
pub const HEAD_BYTES: usize = 8192;

/// Whether a file looks like text by its beginning, which is all of it unless it is longer than
/// what is looked at: it holds no zero byte and is UTF-8. An empty file is text. Where the file
/// goes on behind what is looked at, the last character that is seen may be cut off.
pub open spec fn looks_like_text(head: Seq<u8>) -> bool {
    if head.len() <= HEAD_BYTES {
        !head.contains(0u8) && valid_utf8(head)
    } else {
        let seen = head.take(HEAD_BYTES as int);
        !seen.contains(0u8) && begins_text(seen)
    }
}

/// The MIME type of a file with text in it, by its name in lower case.
pub open spec fn text_type(lower: Seq<char>) -> Seq<char> {
    if ".ts"@.is_suffix_of(lower) || ".tsx"@.is_suffix_of(lower) {
        "application/typescript"@
    } else if ".js"@.is_suffix_of(lower) || ".jsx"@.is_suffix_of(lower) {
        "application/javascript"@
    } else if ".json"@.is_suffix_of(lower) {
        "application/json"@
    } else if ".yml"@.is_suffix_of(lower) || ".yaml"@.is_suffix_of(lower) {
        "text/yaml"@
    } else if ".md"@.is_suffix_of(lower) {
        "text/markdown"@
    } else if ".rs"@.is_suffix_of(lower) {
        "text/x-rust"@
    } else if ".html"@.is_suffix_of(lower) {
        "text/html"@
    } else if ".css"@.is_suffix_of(lower) {
        "text/css"@
    } else if ".xml"@.is_suffix_of(lower) {
        "application/xml"@
    } else {
        "text/plain"@
    }
}

/// The type that mime_guess has for a file name, without parameters, and
/// `application/octet-stream` where it has none.
pub uninterp spec fn guessed_type(file_name: Seq<char>) -> Seq<char>;

/// Calls mime_guess's `from_path` on a file name and takes `essence_str` of
/// `first_or_octet_stream`. It goes by the extension of the name and a fixed table, without a
/// look at the disk; the result is only named.
#[verifier::external_body]
fn guess_type(file_name: &str) -> (r: String)
    ensures
        r@ == guessed_type(file_name@),
{
    mime_guess::from_path(file_name).first_or_octet_stream().essence_str().to_string()
}

/// The MIME type of a directory entry: what text is in it where it is a regular file with
/// text, what its name suggests where it is any other regular file.
pub open spec fn mimetype(
    head: Option<Seq<u8>>,
    file_name: Seq<char>,
    is_directory: bool,
    is_symlink: bool,
    is_file: bool,
) -> Seq<char> {
    if is_directory {
        "inode/directory"@
    } else if is_symlink {
        "inode/symlink"@
    } else if !is_file {
        "application/octet-stream"@
    } else if head is Some && looks_like_text(head->0) {
        text_type(lowercase(file_name))
    } else {
        guessed_type(file_name)
    }
}

/// Valid UTF-8 without a zero byte is text, however long it is and wherever the part that is
/// looked at ends.
pub proof fn law_texts_look_like_text(content: Seq<u8>)
    requires
        valid_utf8(content),
        !content.contains(0u8),
    ensures
        content.len() <= HEAD_BYTES ==> looks_like_text(content),
        content.len() > HEAD_BYTES ==> looks_like_text(content.take(HEAD_BYTES + 1)),
{
    if content.len() > HEAD_BYTES {
        let seen = content.take(HEAD_BYTES as int);
        law_cut_text_begins_text(content, HEAD_BYTES as int);
        assert(content.take(HEAD_BYTES + 1).take(HEAD_BYTES as int) =~= seen);
        assert(!seen.contains(0u8)) by {
            if seen.contains(0u8) {
                let i = choose|i: int| 0 <= i < seen.len() && seen[i] == 0u8;
                assert(content[i] == 0u8);
            }
        }
    }
}

/// A file that is seen whole is text exactly if it is valid UTF-8 without a zero byte, also where
/// it is just as long as what is looked at.
pub proof fn law_whole_files_are_text_or_not(content: Seq<u8>)
    requires
        content.len() <= HEAD_BYTES,
    ensures
        looks_like_text(content) <==> valid_utf8(content) && !content.contains(0u8),
{
}

/// A name that ends in `.ts` is never taken for video where there is text in the file.
pub proof fn law_typescript_is_not_video(head: Seq<u8>, file_name: Seq<char>)
    requires
        looks_like_text(head),
        ".ts"@.is_suffix_of(lowercase(file_name)),
    ensures
        mimetype(Some(head), file_name, false, false, true) == "application/typescript"@,
{
}

/// What an entry is counts before what is in it and what it is called: a directory, a link and
/// anything else that is no regular file have their types whatever their names.
pub proof fn law_kind_counts_first(
    head: Option<Seq<u8>>,
    file_name: Seq<char>,
    is_symlink: bool,
    is_file: bool,
)
    ensures
        mimetype(head, file_name, true, is_symlink, is_file) == "inode/directory"@,
        mimetype(head, file_name, false, true, is_file) == "inode/symlink"@,
        mimetype(head, file_name, false, false, false) == "application/octet-stream"@,
{
}

/// What is in a regular file counts before its name: where it looks like text the name only tells
/// what kind of text it is, in any case of letters, and elsewhere, also where it cannot be read,
/// the type is the one that is guessed from the name.
pub proof fn law_content_counts_before_name(head: Option<Seq<u8>>, file_name: Seq<char>)
    ensures
        head matches Some(bytes) ==> looks_like_text(bytes) ==> mimetype(
            head,
            file_name,
            false,
            false,
            true,
        ) == text_type(lowercase(file_name)),
        head matches Some(bytes) ==> !looks_like_text(bytes) ==> mimetype(
            head,
            file_name,
            false,
            false,
            true,
        ) == guessed_type(file_name),
        head is None ==> mimetype(head, file_name, false, false, true) == guessed_type(file_name),
{
}

/// What a text that ends with `ending` has at its end, character by character.
proof fn lemma_ending(text: Seq<char>, ending: Seq<char>)
    ensures
        ending.is_suffix_of(text) ==> text.len() >= ending.len() && forall|k: int|
            0 <= k < ending.len() ==> text[text.len() - ending.len() + k] == #[trigger] ending[k],
{
    if ending.is_suffix_of(text) {
        let end = text.subrange(text.len() - ending.len(), text.len() as int);
        assert forall|k: int| 0 <= k < ending.len() implies text[text.len() - ending.len() + k]
            == #[trigger] ending[k] by {
            assert(end[k] == text[text.len() - ending.len() + k]);
        }
    }
}

/// The last characters of a text by each of the endings that stand for a kind of text.
proof fn lemma_last_characters(text: Seq<char>)
    ensures
        ".ts"@.is_suffix_of(text) ==> text.len() >= 3 && text[text.len() - 1] == 's'
            && text[text.len() - 2] == 't' && text[text.len() - 3] == '.',
        ".tsx"@.is_suffix_of(text) ==> text.len() >= 4 && text[text.len() - 1] == 'x'
            && text[text.len() - 2] == 's' && text[text.len() - 3] == 't'
            && text[text.len() - 4] == '.',
        ".js"@.is_suffix_of(text) ==> text.len() >= 3 && text[text.len() - 1] == 's'
            && text[text.len() - 2] == 'j' && text[text.len() - 3] == '.',
        ".jsx"@.is_suffix_of(text) ==> text.len() >= 4 && text[text.len() - 1] == 'x'
            && text[text.len() - 2] == 's' && text[text.len() - 3] == 'j'
            && text[text.len() - 4] == '.',
        ".json"@.is_suffix_of(text) ==> text.len() >= 5 && text[text.len() - 1] == 'n'
            && text[text.len() - 2] == 'o' && text[text.len() - 3] == 's'
            && text[text.len() - 4] == 'j',
        ".yml"@.is_suffix_of(text) ==> text.len() >= 4 && text[text.len() - 1] == 'l'
            && text[text.len() - 2] == 'm' && text[text.len() - 3] == 'y'
            && text[text.len() - 4] == '.',
        ".yaml"@.is_suffix_of(text) ==> text.len() >= 5 && text[text.len() - 1] == 'l'
            && text[text.len() - 2] == 'm' && text[text.len() - 3] == 'a'
            && text[text.len() - 4] == 'y',
        ".md"@.is_suffix_of(text) ==> text.len() >= 3 && text[text.len() - 1] == 'd'
            && text[text.len() - 2] == 'm' && text[text.len() - 3] == '.',
        ".rs"@.is_suffix_of(text) ==> text.len() >= 3 && text[text.len() - 1] == 's'
            && text[text.len() - 2] == 'r' && text[text.len() - 3] == '.',
        ".html"@.is_suffix_of(text) ==> text.len() >= 5 && text[text.len() - 1] == 'l'
            && text[text.len() - 2] == 'm' && text[text.len() - 3] == 't'
            && text[text.len() - 4] == 'h',
        ".css"@.is_suffix_of(text) ==> text.len() >= 4 && text[text.len() - 1] == 's'
            && text[text.len() - 2] == 's' && text[text.len() - 3] == 'c'
            && text[text.len() - 4] == '.',
        ".xml"@.is_suffix_of(text) ==> text.len() >= 4 && text[text.len() - 1] == 'l'
            && text[text.len() - 2] == 'm' && text[text.len() - 3] == 'x'
            && text[text.len() - 4] == '.',
{
    reveal_strlit(".ts");
    reveal_strlit(".tsx");
    reveal_strlit(".js");
    reveal_strlit(".jsx");
    reveal_strlit(".json");
    reveal_strlit(".yml");
    reveal_strlit(".yaml");
    reveal_strlit(".md");
    reveal_strlit(".rs");
    reveal_strlit(".html");
    reveal_strlit(".css");
    reveal_strlit(".xml");
    lemma_ending(text, ".ts"@);
    assert(".ts"@[2] == 's');
    assert(".ts"@[1] == 't');
    assert(".ts"@[0] == '.');
    lemma_ending(text, ".tsx"@);
    assert(".tsx"@[3] == 'x');
    assert(".tsx"@[2] == 's');
    assert(".tsx"@[1] == 't');
    assert(".tsx"@[0] == '.');
    lemma_ending(text, ".js"@);
    assert(".js"@[2] == 's');
    assert(".js"@[1] == 'j');
    assert(".js"@[0] == '.');
    lemma_ending(text, ".jsx"@);
    assert(".jsx"@[3] == 'x');
    assert(".jsx"@[2] == 's');
    assert(".jsx"@[1] == 'j');
    assert(".jsx"@[0] == '.');
    lemma_ending(text, ".json"@);
    assert(".json"@[4] == 'n');
    assert(".json"@[3] == 'o');
    assert(".json"@[2] == 's');
    assert(".json"@[1] == 'j');
    lemma_ending(text, ".yml"@);
    assert(".yml"@[3] == 'l');
    assert(".yml"@[2] == 'm');
    assert(".yml"@[1] == 'y');
    assert(".yml"@[0] == '.');
    lemma_ending(text, ".yaml"@);
    assert(".yaml"@[4] == 'l');
    assert(".yaml"@[3] == 'm');
    assert(".yaml"@[2] == 'a');
    assert(".yaml"@[1] == 'y');
    lemma_ending(text, ".md"@);
    assert(".md"@[2] == 'd');
    assert(".md"@[1] == 'm');
    assert(".md"@[0] == '.');
    lemma_ending(text, ".rs"@);
    assert(".rs"@[2] == 's');
    assert(".rs"@[1] == 'r');
    assert(".rs"@[0] == '.');
    lemma_ending(text, ".html"@);
    assert(".html"@[4] == 'l');
    assert(".html"@[3] == 'm');
    assert(".html"@[2] == 't');
    assert(".html"@[1] == 'h');
    lemma_ending(text, ".css"@);
    assert(".css"@[3] == 's');
    assert(".css"@[2] == 's');
    assert(".css"@[1] == 'c');
    assert(".css"@[0] == '.');
    lemma_ending(text, ".xml"@);
    assert(".xml"@[3] == 'l');
    assert(".xml"@[2] == 'm');
    assert(".xml"@[1] == 'x');
    assert(".xml"@[0] == '.');
}

/// A text ends with what was put behind it.
proof fn lemma_put_behind(stem: Seq<char>, ending: Seq<char>)
    ensures
        ending.is_suffix_of(stem + ending),
{
    let text = stem + ending;
    assert(text.subrange(text.len() - ending.len(), text.len() as int) =~= ending);
}

/// The kind of a text goes by how its name, in lower case, ends, whatever stands before the
/// ending. Any other name stands for plain text.
pub proof fn law_endings_tell_kind_of_text(stem: Seq<char>)
    ensures
        text_type(stem + ".ts"@) == "application/typescript"@,
        text_type(stem + ".tsx"@) == "application/typescript"@,
        text_type(stem + ".js"@) == "application/javascript"@,
        text_type(stem + ".jsx"@) == "application/javascript"@,
        text_type(stem + ".json"@) == "application/json"@,
        text_type(stem + ".yml"@) == "text/yaml"@,
        text_type(stem + ".yaml"@) == "text/yaml"@,
        text_type(stem + ".md"@) == "text/markdown"@,
        text_type(stem + ".rs"@) == "text/x-rust"@,
        text_type(stem + ".html"@) == "text/html"@,
        text_type(stem + ".css"@) == "text/css"@,
        text_type(stem + ".xml"@) == "application/xml"@,
        text_type(stem + ".toml"@) == "text/plain"@,
        text_type(stem + ".env"@) == "text/plain"@,
        text_type(stem + ".ini"@) == "text/plain"@,
        text_type(stem + ".cfg"@) == "text/plain"@,
        text_type(stem + ".txt"@) == "text/plain"@,
        !".ts"@.is_suffix_of(stem) && !".tsx"@.is_suffix_of(stem) && !".js"@.is_suffix_of(stem)
            && !".jsx"@.is_suffix_of(stem) && !".json"@.is_suffix_of(stem)
            && !".yml"@.is_suffix_of(stem) && !".yaml"@.is_suffix_of(stem)
            && !".md"@.is_suffix_of(stem) && !".rs"@.is_suffix_of(stem)
            && !".html"@.is_suffix_of(stem) && !".css"@.is_suffix_of(stem)
            && !".xml"@.is_suffix_of(stem) ==> text_type(
            stem,
        ) == "text/plain"@,
{
    assert(text_type(stem + ".ts"@) == "application/typescript"@) by {
        lemma_put_behind(stem, ".ts"@);
        lemma_last_characters(stem + ".ts"@);
    }
    assert(text_type(stem + ".tsx"@) == "application/typescript"@) by {
        lemma_put_behind(stem, ".tsx"@);
        lemma_last_characters(stem + ".tsx"@);
    }
    assert(text_type(stem + ".js"@) == "application/javascript"@) by {
        lemma_put_behind(stem, ".js"@);
        lemma_last_characters(stem + ".js"@);
    }
    assert(text_type(stem + ".jsx"@) == "application/javascript"@) by {
        lemma_put_behind(stem, ".jsx"@);
        lemma_last_characters(stem + ".jsx"@);
    }
    assert(text_type(stem + ".json"@) == "application/json"@) by {
        lemma_put_behind(stem, ".json"@);
        lemma_last_characters(stem + ".json"@);
    }
    assert(text_type(stem + ".yml"@) == "text/yaml"@) by {
        lemma_put_behind(stem, ".yml"@);
        lemma_last_characters(stem + ".yml"@);
    }
    assert(text_type(stem + ".yaml"@) == "text/yaml"@) by {
        lemma_put_behind(stem, ".yaml"@);
        lemma_last_characters(stem + ".yaml"@);
    }
    assert(text_type(stem + ".md"@) == "text/markdown"@) by {
        lemma_put_behind(stem, ".md"@);
        lemma_last_characters(stem + ".md"@);
    }
    assert(text_type(stem + ".rs"@) == "text/x-rust"@) by {
        lemma_put_behind(stem, ".rs"@);
        lemma_last_characters(stem + ".rs"@);
    }
    assert(text_type(stem + ".html"@) == "text/html"@) by {
        lemma_put_behind(stem, ".html"@);
        lemma_last_characters(stem + ".html"@);
    }
    assert(text_type(stem + ".css"@) == "text/css"@) by {
        lemma_put_behind(stem, ".css"@);
        lemma_last_characters(stem + ".css"@);
    }
    assert(text_type(stem + ".xml"@) == "application/xml"@) by {
        lemma_put_behind(stem, ".xml"@);
        lemma_last_characters(stem + ".xml"@);
    }
    assert(text_type(stem + ".toml"@) == "text/plain"@) by {
        reveal_strlit(".toml");
        lemma_last_characters(stem + ".toml"@);
    }
    assert(text_type(stem + ".env"@) == "text/plain"@) by {
        reveal_strlit(".env");
        lemma_last_characters(stem + ".env"@);
    }
    assert(text_type(stem + ".ini"@) == "text/plain"@) by {
        reveal_strlit(".ini");
        lemma_last_characters(stem + ".ini"@);
    }
    assert(text_type(stem + ".cfg"@) == "text/plain"@) by {
        reveal_strlit(".cfg");
        lemma_last_characters(stem + ".cfg"@);
    }
    assert(text_type(stem + ".txt"@) == "text/plain"@) by {
        reveal_strlit(".txt");
        lemma_last_characters(stem + ".txt"@);
    }
}

/// How much of a file counts: the first 8192 bytes. A file that is not longer is text if it is
/// UTF-8 and holds no zero byte, a longer one if that much of it is the beginning of a text without
/// a zero byte, whatever follows.
pub proof fn law_first_bytes_count(head: Seq<u8>, more: Seq<u8>)
    ensures
        head.len() <= 8192 ==> (looks_like_text(head) <==> valid_utf8(head) && !head.contains(0u8)),
        head.len() == 8192
            && more.len() > 0 ==> (looks_like_text(head + more) <==> begins_text(head)
            && !head.contains(0u8)),
{
    if head.len() == 8192 {
        assert((head + more).take(8192) =~= head);
    }
}

/// Whether a file looks like text by its beginning, where that could be read: its first
/// `HEAD_BYTES` bytes, and one more where it goes on.
pub fn sniff_is_text_file(head: &Option<Vec<u8>>) -> (r: Option<bool>)
    ensures
        r is Some <==> head is Some,
        r is Some ==> r->0 == looks_like_text(head->0@),
{
    match head {
        None => None,
        Some(bytes) => {
            let goes_on: bool = bytes.len() > HEAD_BYTES;
            let end: usize = if goes_on {
                HEAD_BYTES
            } else {
                bytes.len()
            };
            let seen = slice_subrange(bytes.as_slice(), 0, end);
            assert(goes_on ==> seen@ =~= bytes@.take(HEAD_BYTES as int));
            assert(!goes_on ==> seen@ =~= bytes@);
            let mut i: usize = 0;
            while i < seen.len()
                invariant
                    i <= seen@.len(),
                    goes_on == (bytes@.len() > HEAD_BYTES),
                    goes_on ==> seen@ == bytes@.take(HEAD_BYTES as int),
                    !goes_on ==> seen@ == bytes@,
                    head == Some(*bytes),
                    forall|k: int| 0 <= k < i ==> seen@[k] != 0,
                decreases seen@.len() - i,
            {
                if seen[i] == 0 {
                    assert(seen@.contains(0u8));
                    return Some(false);
                }
                i = i + 1;
            }
            assert(!seen@.contains(0u8));
            if goes_on {
                Some(is_beginning_of_text(seen))
            } else {
                Some(is_utf8(seen))
            }
        },
    }
}

/// The MIME type of a file with text in it, by its name in lower case.
pub fn text_mimetype(lower: &str) -> (r: String)
    ensures
        r@ == text_type(lower@),
{
    if ends_with(lower, ".ts") || ends_with(lower, ".tsx") {
        return "application/typescript".to_owned();
    }
    if ends_with(lower, ".js") || ends_with(lower, ".jsx") {
        return "application/javascript".to_owned();
    }
    if ends_with(lower, ".json") {
        return "application/json".to_owned();
    }
    if ends_with(lower, ".yml") || ends_with(lower, ".yaml") {
        return "text/yaml".to_owned();
    }
    if ends_with(lower, ".md") {
        return "text/markdown".to_owned();
    }
    if ends_with(lower, ".rs") {
        return "text/x-rust".to_owned();
    }
    if ends_with(lower, ".html") {
        return "text/html".to_owned();
    }
    if ends_with(lower, ".css") {
        return "text/css".to_owned();
    }
    if ends_with(lower, ".xml") {
        return "application/xml".to_owned();
    }
    "text/plain".to_owned()
}

/// The bytes of the beginning of a file, where it could be read.
pub open spec fn head_bytes(head: Option<Vec<u8>>) -> Option<Seq<u8>> {
    match head {
        Some(bytes) => Some(bytes@),
        None => None,
    }
}

/// Finds the MIME type of a directory entry. The beginning of a regular file counts before
/// its name, so that source files are not taken for media with the same extension.
pub fn detect_mimetype(
    head: &Option<Vec<u8>>,
    file_name: &str,
    is_directory: bool,
    is_symlink: bool,
    is_file: bool,
) -> (r: String)
    ensures
        r@ == mimetype(head_bytes(*head), file_name@, is_directory, is_symlink, is_file),
{
    if is_directory {
        return "inode/directory".to_owned();
    }
    if is_symlink {
        return "inode/symlink".to_owned();
    }
    if is_file {
        match sniff_is_text_file(head) {
            Some(true) => {
                let lower = to_lowercase(file_name);
                return text_mimetype(lower.as_str());
            },
            _ => {
                return guess_type(file_name);
            },
        }
    }
    "application/octet-stream".to_owned()
}

} // verus!
