//! The owner and name of a repository, read from its remote's location
//! (`git@github.com:owner/name.git` or `https://github.com/owner/name.git`).

use vstd::prelude::*;
use crate::model::CoreError;
use crate::text::{chars_of, pieces, remove_all, remove_all_chars, split_chars, string_of};

verus! {

pub open spec fn host_prefix() -> Seq<char> {
    seq!['/', '/', 'g', 'i', 't', 'h', 'u', 'b', '.', 'c', 'o', 'm', '/']
}

pub open spec fn git_suffix() -> Seq<char> {
    seq!['.', 'g', 'i', 't']
}

/// The text after the first colon and before the next, without the host part
/// `//github.com/` and without `.git`, split at slashes: its first two pieces,
/// when both are there and neither is empty.
pub open spec fn repo_name_spec(url: Seq<char>) -> Result<(Seq<char>, Seq<char>), CoreError> {
    let parts = pieces(url, ':');
    if parts.len() < 2 {
        Err(CoreError::MalformedRemoteUrl)
    } else {
        let path = remove_all(remove_all(parts[1], host_prefix()), git_suffix());
        let names = pieces(path, '/');
        if names.len() < 2 || names[0].len() == 0 || names[1].len() == 0 {
            Err(CoreError::MalformedRemoteUrl)
        } else {
            Ok((names[0], names[1]))
        }
    }
}

/// Reads the owner and the repository name from a remote's location.
pub fn parse_repo_name(url: &str) -> (r: Result<(String, String), CoreError>)
    ensures
        match r {
            Ok((owner, name)) => repo_name_spec(url@) == Ok::<_, CoreError>((owner@, name@)),
            Err(e) => repo_name_spec(url@) == Err::<(Seq<char>, Seq<char>), _>(e),
        },
{
    let parts = split_chars(&chars_of(url), ':');
    assert(parts@.map_values(|l: Vec<char>| l@).len() == parts@.len());
    if parts.len() < 2 {
        return Err(CoreError::MalformedRemoteUrl);
    }
    assert(parts@.map_values(|l: Vec<char>| l@)[1] == parts@[1]@);
    let host = vec!['/', '/', 'g', 'i', 't', 'h', 'u', 'b', '.', 'c', 'o', 'm', '/'];
    let suffix = vec!['.', 'g', 'i', 't'];
    assert(host@ =~= host_prefix());
    assert(suffix@ =~= git_suffix());
    let path = remove_all_chars(&remove_all_chars(&parts[1], &host), &suffix);
    let names = split_chars(&path, '/');
    assert(names@.map_values(|l: Vec<char>| l@).len() == names@.len());
    if names.len() < 2 {
        return Err(CoreError::MalformedRemoteUrl);
    }
    assert(names@.map_values(|l: Vec<char>| l@)[0] == names@[0]@);
    assert(names@.map_values(|l: Vec<char>| l@)[1] == names@[1]@);
    if names[0].len() == 0 || names[1].len() == 0 {
        return Err(CoreError::MalformedRemoteUrl);
    }
    Ok((string_of(&names[0]), string_of(&names[1])))
}

} // verus!
