//! The data file: where it lies, what reading its content gives, and the
//! text that is written for a store. Reading and writing the file itself is
//! left to the caller.

use vstd::prelude::*;
use vstd::std_specs::iter::IteratorSpec;
use crate::codec::{store_from_json, store_json, store_of, store_to_json};
use crate::data::{LabelView, Store};
use crate::json::{JsonValue, json_parse, json_pretty};

verus! {

/// std::path::PathBuf, carried opaque as the data file's location.
#[verifier::external_type_specification]
#[verifier::external_body]
pub struct ExPathBuf(std::path::PathBuf);

/// Whether `c` has Unicode's White_Space property.
pub open spec fn is_white_space(c: char) -> bool {
    let n = c as u32;
    ||| 0x9 <= n <= 0xD
    ||| n == 0x20
    ||| n == 0x85
    ||| n == 0xA0
    ||| n == 0x1680
    ||| 0x2000 <= n <= 0x200A
    ||| n == 0x2028
    ||| n == 0x2029
    ||| n == 0x202F
    ||| n == 0x205F
    ||| n == 0x3000
}

/// Text that is empty or holds only white space.
pub open spec fn is_blank(s: Seq<char>) -> bool {
    forall|i: int| 0 <= i < s.len() ==> is_white_space(#[trigger] s[i])
}

/// Whether `c` has Unicode's White_Space property.
pub fn white_space(c: char) -> (r: bool)
    ensures
        r == is_white_space(c),
{
    let n = c as u32;
    (0x9 <= n && n <= 0xD) || n == 0x20 || n == 0x85 || n == 0xA0 || n == 0x1680 || (0x2000 <= n
        && n <= 0x200A) || n == 0x2028 || n == 0x2029 || n == 0x202F || n == 0x205F || n == 0x3000
}

/// Whether `s` is empty or holds only white space.
pub fn blank(s: &str) -> (r: bool)
    ensures
        r == is_blank(s@),
{
    broadcast use vstd::string::axiom_spec_iter, vstd::string::next_postcondition;

    let mut it = s.chars();
    let ghost k: int = 0;
    loop
        invariant
            0 <= k <= s@.len(),
            it.remaining() == s@.subrange(k, s@.len() as int),
            forall|i: int| 0 <= i < k ==> is_white_space(#[trigger] s@[i]),
        decreases s@.len() - k,
    {
        match it.next() {
            None => {
                return true;
            },
            Some(c) => {
                if !white_space(c) {
                    return false;
                }
                proof {
                    k = k + 1;
                }
            },
        }
    }
}

/// Why the data file's content could not be used.
#[derive(Debug, Clone, Copy, PartialEq, Eq, Structural)]
pub enum StorageError {
    /// The content is not a JSON document describing a store.
    Malformed,
}

/// The store that the data file gives: an empty store when there is no file
/// (`None`) or the file is blank, else the store that its JSON document
/// describes; `None` when it describes none.
pub open spec fn loaded(content: Option<Seq<char>>) -> Option<Map<Seq<char>, LabelView>> {
    match content {
        None => Some(Map::empty()),
        Some(t) => if is_blank(t) {
            Some(Map::empty())
        } else {
            match json_parse(t) {
                None => None,
                Some(j) => store_of(j),
            }
        },
    }
}

/// The view of optional content.
pub open spec fn content_view(content: Option<&str>) -> Option<Seq<char>> {
    match content {
        Some(t) => Some(t@),
        None => None,
    }
}

/// The location of the data file.
pub struct Storage {
    path: std::path::PathBuf,
}

impl Storage {
    /// The path that this storage reads and writes.
    pub closed spec fn location(&self) -> std::path::PathBuf {
        self.path
    }

    /// A storage at `path`.
    pub fn with_path(path: std::path::PathBuf) -> (r: Storage)
        ensures
            r.location() == path,
    {
        Storage { path }
    }

    /// The path of the data file.
    pub fn path(&self) -> (r: &std::path::PathBuf)
        ensures
            *r == self.location(),
    {
        &self.path
    }

    /// The store that the data file's content gives (see `loaded`):
    /// `content` is `None` when the file does not exist.
    pub fn load(&self, content: Option<&str>) -> (r: Result<Store, StorageError>)
        ensures
            r is Ok <==> loaded(content_view(content)) is Some,
            r matches Ok(s) ==> s.wf() && loaded(content_view(content)) == Some(s@),
            r is Err ==> r == Err::<Store, StorageError>(StorageError::Malformed),
    {
        let text = match content {
            None => return Ok(Store::new()),
            Some(t) => t,
        };
        if blank(text) {
            return Ok(Store::new());
        }
        match store_from_json(text) {
            None => Err(StorageError::Malformed),
            Some(s) => Ok(s),
        }
    }

    /// The text to write to the data file for `store`: the indented JSON
    /// text of its document. Loading that text gives back the same store.
    pub fn save(&self, store: &Store) -> (r: String)
        requires
            store.wf(),
        ensures
            exists|j: JsonValue| store_json(j, store.entries()) && r@ == json_pretty(j) && json_parse(r@)
                == Some(j),
            loaded(Some(r@)) == Some(store@),
    {
        let t = store_to_json(store);
        assert(!is_white_space(t@[0]));
        assert(!is_blank(t@));
        t
    }
}

} // verus!
