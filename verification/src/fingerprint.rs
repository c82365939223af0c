//! The records-tree fingerprint the projection-staleness contract compares
//! against: SHA-256 over the sorted `relative_path:content_sha256` lines of
//! every record file. Deterministic: the same tree always yields the same
//! hex digest, a content or path change yields a different one, and the
//! result does not depend on the order the files were found in. The walk
//! over the directory tree belongs to the command-line front, which hands
//! the files in.

use crate::check::records::reserved;
use crate::order::{lemma_is_sorted_of, sort_texts, sorted, sorted_of, texts};
use crate::path::{extension, extension_exec, file_name_or_empty, file_name_or_empty_exec};
use crate::text::{chars_of, chars_of_string, eq_str, extend, extend_str, join, string_of};
use vstd::prelude::*;
use vstd::utf8::encode_utf8;

verus! {

/// The lowercase hexadecimal SHA-256 digest of `bytes`
/// (`format!("{:x}", sha2::Sha256::digest(bytes))`): a function of the bytes
/// alone.
pub uninterp spec fn sha256_hex(bytes: Seq<u8>) -> Seq<char>;

/// The lowercase hexadecimal SHA-256 digest of `bytes`, computed by the
/// `sha2` crate.
#[verifier::external_body]
fn hex_sha256(bytes: &[u8]) -> (r: String)
    ensures
        r@ == sha256_hex(bytes@),
{
    format!("{:x}", <sha2::Sha256 as sha2::Digest>::digest(bytes))
}

/// A file the fingerprint covers: a markdown record, not the reserved
/// `index.md` or `log.md`.
pub open spec fn record_file(path: Seq<char>) -> bool {
    extension(path) == Some("md"@) && !reserved(file_name_or_empty(path))
}

/// Whether the file at `path` is one the fingerprint covers.
pub fn is_record_file(path: &str) -> (r: bool)
    ensures
        r == record_file(path@),
{
    let p = chars_of(path);
    let is_markdown = match extension_exec(&p) {
        Some(e) => eq_str(&e, "md"),
        None => false,
    };
    let name = file_name_or_empty_exec(&p);
    is_markdown && !(eq_str(&name, "index.md") || eq_str(&name, "log.md"))
}

/// The line a file contributes: its relative path and the digest of its
/// contents.
pub open spec fn file_line(relative: Seq<char>, contents: Seq<u8>) -> Seq<char> {
    relative + ":"@ + sha256_hex(contents)
}

pub open spec fn file_lines(files: Seq<(String, Vec<u8>)>) -> Seq<Seq<char>> {
    files.map_values(|f: (String, Vec<u8>)| file_line(f.0@, f.1@))
}

/// The fingerprint of the files whose lines are `lines`: the digest of the
/// lines, sorted and joined by newlines.
pub open spec fn fingerprint_text(lines: Seq<Seq<char>>) -> Seq<char> {
    sha256_hex(encode_utf8(join(sorted_of(lines), "\n"@)))
}

/// The fingerprint does not depend on the order the files were found in:
/// two listings of the same files, in any order, fingerprint alike.
pub proof fn lemma_fingerprint_order_independent(a: Seq<(String, Vec<u8>)>, b: Seq<(String, Vec<u8>)>)
    requires
        file_lines(a).to_multiset() == file_lines(b).to_multiset(),
    ensures
        fingerprint_text(file_lines(a)) == fingerprint_text(file_lines(b)),
{
    let sa = sorted_of(file_lines(a));
    assert(sorted_of(file_lines(b)) == sa);
}

/// The fingerprint of a tree whose record files are `files`, each its path
/// relative to the root and its contents.
pub fn fingerprint_of(files: &Vec<(String, Vec<u8>)>) -> (r: String)
    ensures
        r@ == fingerprint_text(file_lines(files@)),
{
    let ghost fl = file_lines(files@);
    let mut pairs: Vec<Vec<char>> = Vec::new();
    let mut i: usize = 0;
    while i < files.len()
        invariant
            i <= files.len(),
            fl == file_lines(files@),
            texts(pairs@) == fl.take(i as int),
        decreases files.len() - i,
    {
        let mut line = chars_of_string(&files[i].0);
        extend_str(&mut line, ":");
        let digest = hex_sha256(files[i].1.as_slice());
        extend_str(&mut line, digest.as_str());
        let ghost pb = texts(pairs@);
        pairs.push(line);
        assert(texts(pairs@) =~= pb.push(fl[i as int]));
        assert(fl.take(i + 1) =~= fl.take(i as int).push(fl[i as int]));
        i += 1;
    }
    assert(fl.take(files.len() as int) == fl);
    let sorted_pairs = sort_texts(pairs);
    let joined = string_of(&crate::text::join_exec(&sorted_pairs, &chars_of("\n")));
    let bytes = joined.as_str().as_bytes();
    let r = hex_sha256(bytes);
    proof {
        lemma_is_sorted_of(texts(sorted_pairs@), fl);
    }
    r
}

/// Every file takes part in the fingerprint: it is the digest of all the
/// files' lines, in sorted order, joined by newlines. Any sorted
/// arrangement of exactly those lines is the one hashed.
pub proof fn lemma_fingerprint_covers_every_file(files: Seq<(String, Vec<u8>)>, s: Seq<Seq<char>>)
    requires
        sorted(s),
        s.to_multiset() == file_lines(files).to_multiset(),
    ensures
        fingerprint_text(file_lines(files)) == sha256_hex(encode_utf8(join(s, "\n"@))),
        s.len() == files.len(),
{
    lemma_is_sorted_of(s, file_lines(files));
    file_lines(files).to_multiset_ensures();
    s.to_multiset_ensures();
}

} // verus!
