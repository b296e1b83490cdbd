//! The icons embedded in the shell: how a lookup by path is answered, and which
//! paths a listing returns.
use vstd::prelude::*;
use crate::watcher::{has_prefix, starts_with, texts};

verus! {

/// The embedded assets.
#[derive(Clone, Copy, Debug, PartialEq, Eq, Structural)]
pub struct Assets;

/// A lookup of a path that no asset has.
#[derive(Clone, Debug, PartialEq, Eq)]
pub enum AssetError {
    NotFound(String),
}

impl Assets {
    pub fn new() -> (r: Assets)
        ensures
            r == Assets,
    {
        Assets
    }

    /// The answer to a lookup of `path`, given what the embedded files hold at
    /// that path: no data for the empty path, the data when it exists, and an
    /// error naming the path otherwise.
    pub fn load(&self, path: &str, found: Option<Vec<u8>>) -> (r: Result<Option<Vec<u8>>, AssetError>)
        ensures
            path@.len() == 0 ==> r matches Ok(None),
            path@.len() > 0 && found is Some ==> (r matches Ok(Some(d)) && d@ == found->0@),
            path@.len() > 0 && found is None ==> (r matches Err(AssetError::NotFound(p)) && p@ == path@),
    {
        proof {
            crate::input::text::lemma_encode_utf8_len(path@);
            crate::input::text::lemma_len_le_byte_len(path@);
        }
        if path.as_bytes().len() == 0 {
            return Ok(None);
        }
        proof {
            if path@.len() == 0 {
                assert(path@ =~= Seq::<char>::empty());
            }
        }
        match found {
            Some(d) => Ok(Some(d)),
            None => Err(AssetError::NotFound(path.to_owned())),
        }
    }

    /// The asset paths among `paths` that begin with `prefix`, in order.
    pub fn list(&self, paths: &Vec<String>, prefix: &str) -> (r: Vec<String>)
        ensures
            texts(r@) == texts(paths@).filter(|p: Seq<char>| starts_with(p, prefix@)),
    {
        let ghost s = texts(paths@);
        let mut r: Vec<String> = Vec::new();
        let mut i: usize = 0;
        while i < paths.len()
            invariant
                s == texts(paths@),
                i <= s.len(),
                texts(r@) == s.take(i as int).filter(|p: Seq<char>| starts_with(p, prefix@)),
            decreases s.len() - i,
        {
            proof {
                assert(s.take(i + 1) =~= s.take(i as int).push(s[i as int]));
                s.take(i as int).lemma_filter_push(s[i as int], |p: Seq<char>| starts_with(p, prefix@));
            }
            if has_prefix(paths[i].as_str(), prefix) {
                let ghost before = r@;
                r.push(paths[i].clone());
                proof {
                    assert(texts(r@) =~= texts(before).push(s[i as int]));
                }
            }
            i = i + 1;
        }
        proof {
            assert(s.take(s.len() as int) =~= s);
        }
        r
    }
}

} // verus!
