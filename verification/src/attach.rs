//! The databases attached to a context, as their descriptor names them.

use vstd::prelude::*;
use vstd::string::{StrSliceExecFns, StringExecFns};

use crate::text::{chars_of, find, index_of, split, trim, trimmed};

verus! {

/// An attached database: the logical name it is reached under and the path of
/// the store that holds it.
#[derive(Debug, PartialEq, Eq)]
pub struct Attachment {
    pub name: String,
    pub path: String,
}

/// The mathematical content of an [`Attachment`].
pub struct AttachmentSpec {
    pub name: Seq<char>,
    pub path: Seq<char>,
}

impl View for Attachment {
    type V = AttachmentSpec;

    open spec fn view(&self) -> AttachmentSpec {
        AttachmentSpec { name: self.name@, path: self.path@ }
    }
}

/// The contents of a list of attachments, in order.
pub open spec fn attachment_views(list: Seq<Attachment>) -> Seq<AttachmentSpec> {
    list.map_values(|a: Attachment| a@)
}

/// Why a descriptor was refused. `entry` counts the entries between commas
/// from zero.
#[derive(Clone, Copy, Debug, PartialEq, Eq, Structural)]
pub enum AttachError {
    /// The entry holds no `@`, so it names no path.
    MissingPath { entry: usize },
}

/// The attachment that one entry of a descriptor names. The entry is trimmed;
/// the name is what stands before its first `@`, the path what stands between
/// that and the next `@` or the end, each trimmed. An entry without `@` names
/// none.
pub open spec fn entry_of(piece: Seq<char>) -> Option<AttachmentSpec> {
    let entry = trimmed(piece);
    let at = index_of(entry, '@');
    if 0 <= at < entry.len() {
        let rest = entry.skip(at + 1);
        Some(
            AttachmentSpec {
                name: trimmed(entry.take(at)),
                path: trimmed(rest.take(index_of(rest, '@'))),
            },
        )
    } else {
        None
    }
}

/// The attachments that `pieces` name, in order, or the first of them that
/// names none.
pub open spec fn entries(pieces: Seq<Seq<char>>) -> Result<Seq<AttachmentSpec>, AttachError>
    decreases pieces.len(),
{
    if pieces.len() == 0 {
        Ok(Seq::empty())
    } else {
        match entries(pieces.drop_last()) {
            Err(e) => Err(e),
            Ok(list) => match entry_of(pieces.last()) {
                Some(a) => Ok(list.push(a)),
                None => Err(AttachError::MissingPath { entry: (pieces.len() - 1) as usize }),
            },
        }
    }
}

/// The attachments that a descriptor names: one for each of its entries
/// between commas.
pub open spec fn attachments_of(descriptor: Seq<char>) -> Result<Seq<AttachmentSpec>, AttachError> {
    entries(split(descriptor, ','))
}

/// An entry that names no attachment among the first pieces decides the
/// whole list.
proof fn lemma_entries_fail(done: Seq<Seq<char>>, rest: Seq<Seq<char>>)
    requires
        entries(done) is Err,
    ensures
        entries(done + rest) == entries(done),
    decreases rest.len(),
{
    if rest.len() == 0 {
        assert(done + rest =~= done);
    } else {
        assert((done + rest).drop_last() =~= done + rest.drop_last());
        lemma_entries_fail(done, rest.drop_last());
    }
}

/// The attachment that `chars[from..to]` names.
fn entry(descriptor: &str, chars: &Vec<char>, from: usize, to: usize) -> (r: Option<Attachment>)
    requires
        chars@ == descriptor@,
        from <= to <= chars.len(),
    ensures
        match r {
            Some(a) => entry_of(chars@.subrange(from as int, to as int)) == Some(a@),
            None => entry_of(chars@.subrange(from as int, to as int)) is None,
        },
{
    let (a, b) = trim(chars, from, to);
    let at = find(chars, a, b, '@');
    if at == b {
        return None;
    }
    let next = find(chars, at + 1, b, '@');
    let (name_from, name_to) = trim(chars, a, at);
    let (path_from, path_to) = trim(chars, at + 1, next);
    proof {
        let entry = chars@.subrange(a as int, b as int);
        let rest = entry.skip(at - a + 1);
        assert(entry.take(at - a) =~= chars@.subrange(a as int, at as int));
        assert(rest =~= chars@.subrange(at + 1, b as int));
        assert(rest.take(next - (at + 1)) =~= chars@.subrange(at + 1, next as int));
    }
    let name = String::from_str(descriptor.substring_char(name_from, name_to));
    let path = String::from_str(descriptor.substring_char(path_from, path_to));
    Some(Attachment { name, path })
}

/// Reads the descriptor of the attached databases: a list of `name@path`
/// entries separated by commas, with whitespace allowed around each entry,
/// each name and each path.
///
/// Every entry must name a path. The first that does not is the error, and
/// nothing is returned of the entries before it.
pub fn derive_wormdb(descriptor: &str) -> (r: Result<Vec<Attachment>, AttachError>)
    ensures
        match r {
            Ok(list) => attachments_of(descriptor@) == Ok::<Seq<AttachmentSpec>, AttachError>(
                attachment_views(list@),
            ),
            Err(e) => attachments_of(descriptor@) == Err::<Seq<AttachmentSpec>, AttachError>(e),
        },
{
    let chars = chars_of(descriptor);
    let ghost s = descriptor@;
    let ghost mut done: Seq<Seq<char>> = Seq::empty();
    let mut list: Vec<Attachment> = Vec::new();
    let mut start: usize = 0;
    proof {
        assert(s.skip(0) =~= s);
        assert(done + split(s, ',') =~= split(s, ','));
        assert(attachment_views(list@) =~= Seq::<AttachmentSpec>::empty());
    }
    loop
        invariant
            chars@ == s,
            s == descriptor@,
            start <= chars.len(),
            done.len() == list.len(),
            split(s, ',') == done + split(s.skip(start as int), ','),
            entries(done) == Ok::<Seq<AttachmentSpec>, AttachError>(attachment_views(list@)),
        decreases chars.len() - start,
    {
        let end = find(&chars, start, chars.len(), ',');
        let ghost piece = chars@.subrange(start as int, end as int);
        let ghost tail = s.skip(start as int);
        proof {
            assert(chars@.subrange(start as int, chars.len() as int) =~= tail);
            assert(tail.take(end - start) =~= piece);
            if end == chars.len() {
                assert(piece =~= tail);
            } else {
                assert(tail.skip(end - start + 1) =~= s.skip(end + 1));
            }
            assert((done.push(piece)).drop_last() =~= done);
        }
        match entry(descriptor, &chars, start, end) {
            Some(a) => {
                let ghost before = list@;
                list.push(a);
                proof {
                    assert(attachment_views(list@) =~= attachment_views(before).push(a@));
                }
            },
            None => {
                proof {
                    lemma_entries_fail(done.push(piece), split(s.skip(end + 1), ','));
                    if end == chars.len() {
                        assert(split(s, ',') =~= done.push(piece));
                    } else {
                        assert(split(s, ',') =~= done.push(piece) + split(s.skip(end + 1), ','));
                    }
                }
                return Err(AttachError::MissingPath { entry: list.len() });
            },
        }
        proof {
            done = done.push(piece);
        }
        if end == chars.len() {
            proof {
                assert(split(s, ',') =~= done);
            }
            return Ok(list);
        }
        proof {
            assert(split(s, ',') =~= done + split(s.skip(end + 1), ','));
        }
        start = end + 1;
    }
}

/// The path of the first of `list` named `name`.
pub open spec fn path_named(list: Seq<AttachmentSpec>, name: Seq<char>) -> Option<Seq<char>>
    decreases list.len(),
{
    if list.len() == 0 {
        None
    } else if list[0].name == name {
        Some(list[0].path)
    } else {
        path_named(list.drop_first(), name)
    }
}

/// The path of the store attached under the logical name `name`: that of the
/// first attachment of that name. `None` exactly when there is none.
pub fn path_of<'a>(attachments: &'a Vec<Attachment>, name: &str) -> (r: Option<&'a String>)
    ensures
        match r {
            Some(path) => path_named(attachment_views(attachments@), name@) == Some(path@),
            None => path_named(attachment_views(attachments@), name@) is None,
        },
{
    let wanted = String::from_str(name);
    let ghost all = attachment_views(attachments@);
    proof {
        assert(all.skip(0) =~= all);
    }
    let mut k: usize = 0;
    while k < attachments.len()
        invariant
            k <= attachments.len(),
            wanted@ == name@,
            all == attachment_views(attachments@),
            path_named(all, name@) == path_named(all.skip(k as int), name@),
        decreases attachments.len() - k,
    {
        proof {
            assert(all.skip(k as int)[0] == attachments[k as int]@);
            assert(all.skip(k as int).drop_first() =~= all.skip(k + 1));
        }
        if attachments[k].name == wanted {
            return Some(&attachments[k].path);
        }
        k = k + 1;
    }
    None
}

} // verus!
