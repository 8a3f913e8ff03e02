//! What goes over the wire besides file contents: the announcement of the
//! data port, the texts of the listings and of the usage lines, and the
//! bounds of the blocks in which a file is sent.

use crate::constants::{CREATE_DESC, DELETE_DESC, GET_DESC, UPDATE_DESC, VERB_DESCRIPTIONS};
use crate::directory_tree::Path;
use crate::request::FileVerb;
use crate::text::{append_bytes, text_bytes, views};
use vstd::prelude::*;
use vstd::string::StringSliceAdditionalSpecFns;

verus! {

/// The byte that ends a line.
pub const LINE_FEED: u8 = 0x0a;

/// The byte that parts the names of a path.
pub const SLASH: u8 = 0x2f;

/// The three bytes that announce a data port on the control channel: the
/// port, high byte first, and a line feed.
pub open spec fn announcement_of(port: u16) -> Seq<u8> {
    seq![(port / 256) as u8, (port % 256) as u8, LINE_FEED]
}

/// The port that two bytes, high byte first, stand for.
pub open spec fn port_of(high: u8, low: u8) -> u16 {
    (high * 256 + low) as u16
}

/// The bytes of `text` and a line feed.
pub open spec fn line_of(text: &str) -> Seq<u8> {
    text.spec_bytes().push(LINE_FEED)
}

/// The usage line of a verb that names a file, as it is sent: without a
/// line feed.
pub open spec fn usage_of(verb: FileVerb) -> Seq<u8> {
    match verb {
        FileVerb::Get => GET_DESC.spec_bytes(),
        FileVerb::Delete => DELETE_DESC.spec_bytes(),
        FileVerb::Create => CREATE_DESC.spec_bytes(),
        FileVerb::Update => UPDATE_DESC.spec_bytes(),
    }
}

/// The texts of `texts`, each ended by a line feed.
pub open spec fn lines_of(texts: Seq<&'static str>) -> Seq<u8>
    decreases texts.len(),
{
    if texts.len() == 0 {
        Seq::empty()
    } else {
        lines_of(texts.drop_last()) + line_of(texts.last())
    }
}

/// The answer to `HELP`: the usage line of each verb but `HELP`, each
/// ended by a line feed.
pub open spec fn help_of() -> Seq<u8> {
    lines_of(VERB_DESCRIPTIONS@)
}

/// The last name of a path; nothing for the empty path.
pub open spec fn last_name(path: Path) -> Seq<u8> {
    if path.len() > 0 {
        path.last()
    } else {
        Seq::empty()
    }
}

/// The answer to a listing: the last name of each file, each ended by a
/// line feed, in the order of `files`.
pub open spec fn listing_of(files: Seq<Path>) -> Seq<u8>
    decreases files.len(),
{
    if files.len() == 0 {
        Seq::empty()
    } else {
        listing_of(files.drop_last()) + last_name(files.last()).push(LINE_FEED)
    }
}

/// The part of `name` behind its last slash; all of it where it has none.
pub open spec fn base_name_of(name: Seq<u8>) -> Seq<u8>
    decreases name.len(),
{
    if name.len() == 0 || name.last() == SLASH {
        Seq::empty()
    } else {
        base_name_of(name.drop_last()).push(name.last())
    }
}

/// Where the block of a file that starts at `start` ends: `size` bytes on,
/// or at the end of the file where fewer are left.
pub open spec fn block_end(length: int, size: int, start: int) -> int {
    if length - start <= size {
        length
    } else {
        start + size
    }
}

/// The blocks in which a file of `length` bytes is sent from `start` on,
/// each with the place where it starts and the place where it ends.
pub open spec fn blocks_from(length: int, size: int, start: int) -> Seq<(int, int)>
    decreases length - start,
{
    if size <= 0 || start < 0 || start >= length {
        Seq::empty()
    } else {
        seq![(start, block_end(length, size, start))] + blocks_from(
            length,
            size,
            block_end(length, size, start),
        )
    }
}

/// The bytes of `data` that lie in `blocks`, block after block.
pub open spec fn bytes_in(data: Seq<u8>, blocks: Seq<(int, int)>) -> Seq<u8>
    decreases blocks.len(),
{
    if blocks.len() == 0 {
        Seq::empty()
    } else {
        data.subrange(blocks[0].0, blocks[0].1) + bytes_in(data, blocks.skip(1))
    }
}

/// The blocks of a file, sent one after the other, are the file: from
/// `start` on they hold every byte once and in order, and none of them is
/// empty or longer than `size`.
pub proof fn lemma_blocks_make_the_file(data: Seq<u8>, size: int, start: int)
    requires
        size > 0,
        0 <= start <= data.len(),
    ensures
        bytes_in(data, blocks_from(data.len() as int, size, start)) == data.skip(start),
        forall|k: int|
            0 <= k < blocks_from(data.len() as int, size, start).len() ==> {
                let block = #[trigger] blocks_from(data.len() as int, size, start)[k];
                start <= block.0 < block.1 <= data.len() && block.1 - block.0 <= size
            },
    decreases data.len() - start,
{
    let length = data.len() as int;
    let blocks = blocks_from(length, size, start);
    if start >= length {
        assert(data.skip(start) =~= Seq::<u8>::empty());
    } else {
        let end = block_end(length, size, start);
        let rest = blocks_from(length, size, end);
        lemma_blocks_make_the_file(data, size, end);
        assert(blocks.skip(1) =~= rest);
        assert(data.subrange(start, end) + data.skip(end) =~= data.skip(start));
        assert forall|k: int| 0 <= k < blocks.len() implies {
            let block = #[trigger] blocks[k];
            start <= block.0 < block.1 <= data.len() && block.1 - block.0 <= size
        } by {
            if k > 0 {
                assert(blocks[k] == rest[k - 1]);
            }
        }
    }
}

/// The bytes of `blocks`, one block behind the other: what a file holds
/// that was empty and to whose end each block was put in turn.
pub open spec fn joined(blocks: Seq<Seq<u8>>) -> Seq<u8>
    decreases blocks.len(),
{
    if blocks.len() == 0 {
        Seq::empty()
    } else {
        joined(blocks.drop_last()) + blocks.last()
    }
}

/// Each block of an upload lies in the stored file where the blocks before
/// it end.
pub proof fn lemma_joined_holds_each_block(blocks: Seq<Seq<u8>>, k: int)
    requires
        0 <= k < blocks.len(),
    ensures
        joined(blocks.take(k)).len() + blocks[k].len() <= joined(blocks).len(),
        joined(blocks).subrange(
            joined(blocks.take(k)).len() as int,
            (joined(blocks.take(k)).len() + blocks[k].len()) as int,
        ) == blocks[k],
    decreases blocks.len(),
{
    let front = blocks.drop_last();
    if k == blocks.len() - 1 {
        assert(blocks.take(k) =~= front);
        assert(joined(blocks).subrange(
            joined(front).len() as int,
            (joined(front).len() + blocks[k].len()) as int,
        ) =~= blocks[k]);
    } else {
        lemma_joined_holds_each_block(front, k);
        assert(front.take(k) =~= blocks.take(k));
        let start = joined(blocks.take(k)).len() as int;
        assert(joined(blocks).subrange(start, start + blocks[k].len()) =~= joined(front).subrange(
            start,
            start + blocks[k].len(),
        ));
    }
}

/// An upload that was stored block after block comes back as it was sent:
/// the blocks in which the stored file goes out are, put together, the
/// blocks that came in, put together, whatever the sizes of either.
pub proof fn lemma_stored_upload_is_sent_whole(received: Seq<Seq<u8>>, size: int)
    requires
        size > 0,
    ensures
        bytes_in(joined(received), blocks_from(joined(received).len() as int, size, 0)) == joined(
            received,
        ),
{
    lemma_blocks_make_the_file(joined(received), size, 0);
    assert(joined(received).skip(0) =~= joined(received));
}

pub fn port_announcement(port: u16) -> (bytes: Vec<u8>)
    ensures
        bytes@ == announcement_of(port),
{
    let mut bytes: Vec<u8> = Vec::new();
    bytes.push((port / 256) as u8);
    bytes.push((port % 256) as u8);
    bytes.push(LINE_FEED);
    assert(bytes@ =~= announcement_of(port));
    bytes
}

/// Reads a port from the first two bytes of an announcement.
pub fn announced_port(high: u8, low: u8) -> (port: u16)
    ensures
        port == port_of(high, low),
{
    (high as u16) * 256 + (low as u16)
}

/// The port that is read from an announcement is the port that was
/// announced.
pub proof fn lemma_announcement_round_trip(port: u16)
    ensures
        announcement_of(port).len() == 3,
        port_of(announcement_of(port)[0], announcement_of(port)[1]) == port,
        announcement_of(port)[2] == LINE_FEED,
{
}

pub fn usage_text(verb: FileVerb) -> (bytes: Vec<u8>)
    ensures
        bytes@ == usage_of(verb),
{
    match verb {
        FileVerb::Get => text_bytes(GET_DESC),
        FileVerb::Delete => text_bytes(DELETE_DESC),
        FileVerb::Create => text_bytes(CREATE_DESC),
        FileVerb::Update => text_bytes(UPDATE_DESC),
    }
}

/// Puts `text` and a line feed behind `out`.
pub fn append_line(out: &mut Vec<u8>, text: &str)
    ensures
        final(out)@ == old(out)@ + line_of(text),
{
    append_bytes(out, text.as_bytes());
    out.push(LINE_FEED);
    assert(out@ =~= old(out)@ + line_of(text));
}

/// The texts of `texts`, each ended by a line feed.
pub fn lines_text(texts: &[&'static str]) -> (bytes: Vec<u8>)
    ensures
        bytes@ == lines_of(texts@),
{
    let mut bytes: Vec<u8> = Vec::new();
    let mut i: usize = 0;
    assert(texts@.take(0) =~= Seq::<&'static str>::empty());
    while i < texts.len()
        invariant
            i <= texts@.len(),
            bytes@ == lines_of(texts@.take(i as int)),
        decreases texts@.len() - i,
    {
        proof {
            assert(texts@.take(i + 1).drop_last() =~= texts@.take(i as int));
        }
        append_line(&mut bytes, texts[i]);
        i += 1;
    }
    assert(texts@.take(texts@.len() as int) =~= texts@);
    bytes
}

pub fn help_text() -> (bytes: Vec<u8>)
    ensures
        bytes@ == help_of(),
{
    lines_text(&VERB_DESCRIPTIONS)
}

/// The text that names the files of `files`.
pub fn listing_text(files: &Vec<Vec<Vec<u8>>>) -> (bytes: Vec<u8>)
    ensures
        bytes@ == listing_of(crate::directory_tree::path_views(files@)),
{
    let ghost all = crate::directory_tree::path_views(files@);
    let mut bytes: Vec<u8> = Vec::new();
    let mut i: usize = 0;
    assert(all.take(0) =~= Seq::<Path>::empty());
    while i < files.len()
        invariant
            i <= files@.len(),
            all == crate::directory_tree::path_views(files@),
            bytes@ == listing_of(all.take(i as int)),
        decreases files@.len() - i,
    {
        let path = &files[i];
        let ghost before = bytes@;
        proof {
            assert(all.take(i + 1).drop_last() =~= all.take(i as int));
            assert(all.take(i + 1).last() == views(path@));
        }
        if path.len() > 0 {
            append_bytes(&mut bytes, path[path.len() - 1].as_slice());
        }
        bytes.push(LINE_FEED);
        assert(bytes@ =~= before + last_name(views(path@)).push(LINE_FEED));
        i += 1;
    }
    assert(all.take(files@.len() as int) =~= all);
    bytes
}

/// The part of `name` behind its last slash.
pub fn base_name(name: &[u8]) -> (base: Vec<u8>)
    ensures
        base@ == base_name_of(name@),
{
    let mut start: usize = name.len();
    while start > 0 && name[start - 1] != SLASH
        invariant
            start <= name@.len(),
            forall|k: int| start <= k < name@.len() ==> name@[k] != SLASH,
        decreases start,
    {
        start -= 1;
    }
    let mut base: Vec<u8> = Vec::new();
    let mut i: usize = start;
    proof {
        lemma_no_base_name_yet(name@, start as int);
    }
    while i < name.len()
        invariant
            start <= i <= name@.len(),
            start == 0 || name@[start - 1] == SLASH,
            forall|k: int| start <= k < name@.len() ==> name@[k] != SLASH,
            base@ == base_name_of(name@.take(i as int)),
        decreases name@.len() - i,
    {
        base.push(name[i]);
        proof {
            assert(name@.take(i + 1).drop_last() =~= name@.take(i as int));
        }
        i += 1;
    }
    assert(name@.take(name@.len() as int) =~= name@);
    base
}

/// Up to a slash, or up to nothing, there is no base name yet.
proof fn lemma_no_base_name_yet(name: Seq<u8>, start: int)
    requires
        0 <= start <= name.len(),
        start == 0 || name[start - 1] == SLASH,
    ensures
        base_name_of(name.take(start)) == Seq::<u8>::empty(),
{
    if start > 0 {
        assert(name.take(start).last() == SLASH);
    }
}

/// Where the block that starts at `start` ends.
pub fn chunk_end(length: usize, size: usize, start: usize) -> (end: usize)
    requires
        start <= length,
    ensures
        end == block_end(length as int, size as int, start as int),
        start <= end <= length,
        end - start <= size,
        size > 0 && start < length ==> start < end,
{
    if length - start <= size {
        length
    } else {
        start + size
    }
}

} // verus!
