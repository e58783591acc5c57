//! Commits, full snapshots, and the derivation of commit ids.
use sha1::{Digest, Sha1};
use vstd::prelude::*;
use vstd::utf8::encode_utf8;

verus! {

/// Metadata of one commit: its short id, message and RFC 3339 timestamp.
#[derive(Clone, Debug)]
pub struct Commit {
    pub id: String,
    pub message: String,
    pub timestamp: String,
}

pub ghost struct CommitView {
    pub id: Seq<char>,
    pub message: Seq<char>,
    pub timestamp: Seq<char>,
}

impl View for Commit {
    type V = CommitView;

    open spec fn view(&self) -> CommitView {
        CommitView { id: self.id@, message: self.message@, timestamp: self.timestamp@ }
    }
}

/// A commit together with the snapshot of every tracked file, in order.
#[derive(Clone, Debug)]
pub struct FullCommit {
    pub commit: Commit,
    pub files: Vec<(String, Vec<u8>)>,
}

pub ghost struct FullCommitView {
    pub commit: CommitView,
    pub files: Seq<(Seq<char>, Seq<u8>)>,
}

impl View for FullCommit {
    type V = FullCommitView;

    open spec fn view(&self) -> FullCommitView {
        FullCommitView { commit: self.commit@, files: self.files@.map_values(|f: (String, Vec<u8>)| f@) }
    }
}

/// The SHA-1 digest of a byte sequence.
pub uninterp spec fn sha1_of(data: Seq<u8>) -> Seq<u8>;

/// Lower-case hexadecimal digit of a value below 16.
pub open spec fn hex_char(n: int) -> char {
    if n < 10 {
        ('0' as int + n) as char
    } else {
        ('a' as int + (n - 10)) as char
    }
}

/// Digit `i` of the lower-case hexadecimal rendering of `bytes`, high nibble first.
pub open spec fn hex_digit_at(bytes: Seq<u8>, i: int) -> char {
    if i % 2 == 0 {
        hex_char(bytes[i / 2] as int / 16)
    } else {
        hex_char(bytes[i / 2] as int % 16)
    }
}

/// The lower-case hexadecimal rendering of `bytes`, two digits per byte.
pub open spec fn hex_of(bytes: Seq<u8>) -> Seq<char> {
    Seq::new(2 * bytes.len(), |i: int| hex_digit_at(bytes, i))
}

/// Number of hex digits kept in a commit id.
pub const ID_LEN: usize = 7;

/// The id of a commit: the first seven hex digits of the SHA-1 digest of the
/// UTF-8 message followed by the UTF-8 timestamp.
pub open spec fn commit_id_of(message: Seq<char>, timestamp: Seq<char>) -> Seq<char> {
    hex_of(sha1_of(encode_utf8(message) + encode_utf8(timestamp))).take(ID_LEN as int)
}

/// Relies on sha1::Sha1 through digest::Digest: feeding `first` and then
/// `second` yields the 20-byte SHA-1 digest of their concatenation.
#[verifier::external_body]
fn sha1_digest(first: &[u8], second: &[u8]) -> (r: Vec<u8>)
    ensures
        r@ == sha1_of(first@ + second@),
        r@.len() == 20,
{
    let mut hasher = Sha1::new();
    hasher.update(first);
    hasher.update(second);
    hasher.finalize().to_vec()
}

fn hex_char_exec(n: u8) -> (c: char)
    requires
        n < 16,
    ensures
        c == hex_char(n as int),
{
    if n < 10 {
        ((48 + n) as u8) as char
    } else {
        ((87 + n) as u8) as char
    }
}

/// The first `count` hex digits of `bytes`.
pub fn hex_prefix(bytes: &Vec<u8>, count: usize) -> (r: Vec<char>)
    requires
        count <= 2 * bytes@.len(),
    ensures
        r@ == hex_of(bytes@).take(count as int),
{
    let mut out: Vec<char> = Vec::new();
    let mut i: usize = 0;
    while i < count
        invariant
            i <= count,
            count <= 2 * bytes@.len(),
            out@ == hex_of(bytes@).take(i as int),
        decreases count - i,
    {
        let b = bytes[i / 2];
        let c = if i % 2 == 0 {
            hex_char_exec(b / 16)
        } else {
            hex_char_exec(b % 16)
        };
        out.push(c);
        i = i + 1;
        assert(out@ =~= hex_of(bytes@).take(i as int));
    }
    out
}

/// Relies on std's `String: FromIterator<&char>`: the string holds the
/// characters in order.
#[verifier::external_body]
fn string_from_chars(chars: &Vec<char>) -> (r: String)
    ensures
        r@ == chars@,
{
    String::from_iter(chars.iter())
}

/// The id of a commit made with `message` at `timestamp`.
pub fn commit_id(message: &str, timestamp: &str) -> (r: String)
    ensures
        r@ == commit_id_of(message@, timestamp@),
{
    let digest = sha1_digest(message.as_bytes(), timestamp.as_bytes());
    let digits = hex_prefix(&digest, ID_LEN);
    string_from_chars(&digits)
}

/// The commit id that a log file name carries: the name without its
/// `.json` extension, where there is a non-empty stem.
pub open spec fn log_entry_id_of(name: Seq<char>) -> Option<Seq<char>> {
    if name.len() > 5 && name.subrange(name.len() - 5, name.len() as int) == seq!['.', 'j', 's', 'o', 'n'] {
        Some(name.take(name.len() - 5))
    } else {
        None
    }
}

/// The commit id named by the log file `name`, if it is a log entry.
pub fn log_entry_id(name: &str) -> (r: Option<String>)
    ensures
        r matches Some(id) ==> log_entry_id_of(name@) == Some(id@),
        r is None ==> log_entry_id_of(name@) is None,
{
    let n = name.unicode_len();
    if n <= 5 {
        return None;
    }
    let ghost suffix = seq!['.', 'j', 's', 'o', 'n'];
    let is_json = name.get_char(n - 5) == '.' && name.get_char(n - 4) == 'j'
        && name.get_char(n - 3) == 's' && name.get_char(n - 2) == 'o'
        && name.get_char(n - 1) == 'n';
    if is_json {
        assert(name@.subrange(n - 5, n as int) =~= suffix);
        Some(name.substring_char(0, n - 5).to_owned())
    } else {
        assert(name@.subrange(n - 5, n as int) != suffix) by {
            if name@.subrange(n - 5, n as int) == suffix {
                assert(name@[n - 5] == name@.subrange(n - 5, n as int)[0]);
                assert(name@[n - 4] == name@.subrange(n - 5, n as int)[1]);
                assert(name@[n - 3] == name@.subrange(n - 5, n as int)[2]);
                assert(name@[n - 2] == name@.subrange(n - 5, n as int)[3]);
                assert(name@[n - 1] == name@.subrange(n - 5, n as int)[4]);
            }
        }
        None
    }
}

/// Whether the log file `name` is the entry of the commit `id`.
pub fn is_log_entry_of(name: &str, id: &String) -> (r: bool)
    ensures
        r == (log_entry_id_of(name@) == Some(id@)),
{
    match log_entry_id(name) {
        Some(stem) => stem == *id,
        None => false,
    }
}

impl Commit {
    /// A copy of this commit.
    pub fn copy(&self) -> (r: Commit)
        ensures
            r@ == self@,
    {
        Commit { id: self.id.clone(), message: self.message.clone(), timestamp: self.timestamp.clone() }
    }
}

/// A copy of a byte vector.
fn copy_bytes(v: &Vec<u8>) -> (r: Vec<u8>)
    ensures
        r@ == v@,
{
    let mut out: Vec<u8> = Vec::new();
    let mut i: usize = 0;
    while i < v.len()
        invariant
            i <= v@.len(),
            out@ == v@.take(i as int),
        decreases v@.len() - i,
    {
        out.push(v[i]);
        i = i + 1;
        assert(out@ =~= v@.take(i as int));
    }
    assert(out@ =~= v@);
    out
}

impl FullCommit {
    /// A copy of this snapshot.
    pub fn copy(&self) -> (r: FullCommit)
        ensures
            r@ == self@,
    {
        let mut files: Vec<(String, Vec<u8>)> = Vec::new();
        let mut i: usize = 0;
        while i < self.files.len()
            invariant
                i <= self.files@.len(),
                files@.len() == i,
                files@.map_values(|f: (String, Vec<u8>)| f@) == self.files@.map_values(
                    |f: (String, Vec<u8>)| f@,
                ).take(i as int),
            decreases self.files@.len() - i,
        {
            let name = self.files[i].0.clone();
            let content = copy_bytes(&self.files[i].1);
            assert((name, content)@ == self.files@[i as int]@);
            files.push((name, content));
            assert(files@[i as int]@ == self.files@[i as int]@);
            i = i + 1;
            assert(files@.map_values(|f: (String, Vec<u8>)| f@) =~= self.files@.map_values(
                |f: (String, Vec<u8>)| f@,
            ).take(i as int));
        }
        assert(files@.map_values(|f: (String, Vec<u8>)| f@) =~= self.files@.map_values(
            |f: (String, Vec<u8>)| f@,
        ));
        FullCommit { commit: self.commit.copy(), files }
    }
}

} // verus!
