//! Content fingerprints.

use sha2::{Digest, Sha256};
use vstd::prelude::*;

verus! {

/// The SHA-256 digest of the UTF-8 bytes of `text`, in lowercase hexadecimal.
pub uninterp spec fn sha256_hex(text: Seq<char>) -> Seq<char>;

/// `sha2::Sha256::digest` of the bytes of `text`, printed in lowercase
/// hexadecimal. A digest has 32 bytes, so the result has 64 characters.
#[verifier::external_body]
pub(crate) fn hash_text(text: &str) -> (r: String)
    ensures
        r@ == sha256_hex(text@),
        r@.len() == 64,
{
    format!("{:x}", Sha256::digest(text.as_bytes()))
}

/// The fingerprint of a page: title and text with a NUL character between.
pub open spec fn page_fingerprint(title: Seq<char>, text: Seq<char>) -> Seq<char> {
    sha256_hex(title + seq!['\0'] + text)
}

/// The fingerprint of a page, by which an unchanged page is recognised.
pub fn content_hash(title: &str, text: &str) -> (r: String)
    ensures
        r@ == page_fingerprint(title@, text@),
{
    let mut all: String = title.to_owned();
    all.push('\0');
    all.push_str(text);
    assert(all@ =~= title@ + seq!['\0'] + text@);
    hash_text(all.as_str())
}

/// The fingerprint of a page is that of its title, a NUL character and its text:
/// another title or another text without such a character means another text to
/// be hashed.
pub proof fn fingerprints_tell_titles_from_texts(
    title: Seq<char>,
    text: Seq<char>,
    other_title: Seq<char>,
    other_text: Seq<char>,
    hashed: Seq<char>,
    other_hashed: Seq<char>,
)
    requires
        hashed.len() == title.len() + 1 + text.len(),
        hashed.take(title.len() as int) == title,
        hashed[title.len() as int] == '\0',
        hashed.skip((title.len() + 1) as int) == text,
        other_hashed == other_title + seq!['\0'] + other_text,
        forall|i: int| 0 <= i < title.len() ==> title[i] != '\0',
        forall|i: int| 0 <= i < other_title.len() ==> other_title[i] != '\0',
    ensures
        page_fingerprint(title, text) == sha256_hex(hashed),
        hashed == other_hashed ==> title == other_title && text == other_text,
{
    let n = title.len() as int;
    assert forall|i: int| 0 <= i < title.len() implies hashed[i] == title[i] by {
        assert(hashed.take(n)[i] == hashed[i]);
    }
    assert forall|i: int| 0 <= i < text.len() implies hashed[n + 1 + i] == text[i] by {
        assert(hashed.skip(n + 1)[i] == hashed[n + 1 + i]);
    }
    assert(hashed =~= title + seq!['\0'] + text);
    if hashed == other_hashed {
        let m = other_title.len() as int;
        assert(hashed[m] == '\0');
        if n < m {
            assert(other_hashed[n] == other_title[n]);
        } else if m < n {
            assert(hashed[m] == title[m]);
        }
        assert(title =~= other_title) by {
            assert forall|i: int| 0 <= i < n implies title[i] == other_title[i] by {
                assert(hashed[i] == other_hashed[i]);
            }
        }
        assert(text =~= other_text) by {
            assert forall|i: int| 0 <= i < text.len() implies text[i] == other_text[i] by {
                assert(hashed[n + 1 + i] == other_hashed[n + 1 + i]);
            }
        }
    }
}

} // verus!
