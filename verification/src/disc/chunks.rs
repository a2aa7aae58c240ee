//! Streamed chunks: which files they come from and in which order they go on
//! the disc.

use crate::lines::{
    begins_with, find_from, first_place, is_digit, is_space, law_numerals_are_read_back,
    law_space_around_a_text_is_taken_away, lemma_first_place, line_views, lines_of, parse_u32,
    parsed_u32, part, split_lines, starts_with, trim, trimmed,
};
use crate::text::{chars_of, decimal, joined, push_decimal, same_text};
use vstd::prelude::*;

verus! {

/// One chunk.
#[derive(Debug, PartialEq, Eq)]
pub struct Chunk {
    pub id: u32,
    pub bytes: Vec<u8>,
}

/// What a file of the chunk directory is.
#[derive(Debug, Clone, Copy, PartialEq, Eq, Structural)]
pub enum ChunkFile {
    /// Not a chunk.
    Other,
    /// The chunk with this number.
    Chunk { id: u32 },
    /// It is named like a chunk, but its number cannot be read.
    Invalid,
}

/// What a file is, by its extension and the rest of its name.
pub open spec fn chunk_file_of(
    extension: Option<Seq<char>>,
    stem: Option<Seq<char>>,
    wanted: Seq<char>,
    prefix: Seq<char>,
) -> ChunkFile {
    match (extension, stem) {
        (Some(extension), Some(stem)) => if extension == wanted && begins_with(stem, prefix) {
            match parsed_u32(stem.skip(prefix.len() as int)) {
                Some(id) => ChunkFile::Chunk { id },
                None => ChunkFile::Invalid,
            }
        } else {
            ChunkFile::Other
        },
        _ => ChunkFile::Other,
    }
}

/// The content of an optional text.
pub open spec fn text_view(text: Option<&str>) -> Option<Seq<char>> {
    match text {
        Some(text) => Some(text@),
        None => None,
    }
}

/// Tells what a file is, by its extension and the rest of its name.
pub fn chunk_file(
    extension: Option<&str>,
    stem: Option<&str>,
    wanted: &str,
    prefix: &str,
) -> (file: ChunkFile)
    ensures
        file == chunk_file_of(text_view(extension), text_view(stem), wanted@, prefix@),
{
    match (extension, stem) {
        (Some(extension), Some(stem)) => {
            let chars = chars_of(stem);
            if !same_text(extension, wanted) || !starts_with(&chars, prefix) {
                return ChunkFile::Other;
            }
            let skipped = chars_of(prefix);
            let number = part(&chars, skipped.len(), chars.len());
            assert(number@ =~= stem@.skip(prefix@.len() as int));
            match parse_u32(&number) {
                Some(id) => ChunkFile::Chunk { id },
                None => ChunkFile::Invalid,
            }
        },
        _ => ChunkFile::Other,
    }
}

/// The bytes of those chunks that have a number, in order.
pub open spec fn bytes_with_id(chunks: Seq<Chunk>, id: u32) -> Seq<Seq<u8>>
    decreases chunks.len(),
{
    if chunks.len() == 0 {
        Seq::empty()
    } else {
        let rest = bytes_with_id(chunks.drop_last(), id);
        if chunks.last().id == id {
            rest.push(chunks.last().bytes@)
        } else {
            rest
        }
    }
}

/// The same chunks, those with equal numbers in the same order.
pub open spec fn same_chunks(a: Seq<Chunk>, b: Seq<Chunk>) -> bool {
    &&& a.len() == b.len()
    &&& forall|id: u32| #[trigger] bytes_with_id(a, id) == bytes_with_id(b, id)
}

/// The chunks by rising number.
pub open spec fn by_number(chunks: Seq<Chunk>) -> bool {
    forall|i: int, j: int|
        0 <= i <= j < chunks.len() ==> (#[trigger] chunks[i]).id <= (#[trigger] chunks[j]).id
}

proof fn lemma_insert_bytes(chunks: Seq<Chunk>, at: int, chunk: Chunk, id: u32)
    requires
        0 <= at <= chunks.len(),
        forall|i: int| at <= i < chunks.len() ==> (#[trigger] chunks[i]).id != chunk.id,
    ensures
        bytes_with_id(chunks.insert(at, chunk), id) == if id == chunk.id {
            bytes_with_id(chunks, id).push(chunk.bytes@)
        } else {
            bytes_with_id(chunks, id)
        },
    decreases chunks.len(),
{
    let after = chunks.insert(at, chunk);
    if at == chunks.len() {
        assert(after.drop_last() =~= chunks);
    } else {
        let rest = chunks.drop_last();
        assert(after.drop_last() =~= rest.insert(at, chunk));
        assert(after.last() == chunks.last());
        assert(chunks[chunks.len() - 1].id != chunk.id);
        assert forall|i: int| at <= i < rest.len() implies (#[trigger] rest[i]).id != chunk.id by {
            assert(rest[i] == chunks[i]);
        }
        lemma_insert_bytes(rest, at, chunk, id);
    }
}

/// Puts a chunk among sorted ones, behind those with its number.
fn insert_sorted(chunks: &mut Vec<Chunk>, chunk: Chunk)
    requires
        by_number(old(chunks)@),
    ensures
        by_number(final(chunks)@),
        final(chunks)@.len() == old(chunks)@.len() + 1,
        forall|id: u32| #[trigger]
            bytes_with_id(final(chunks)@, id) == if id == chunk.id {
                bytes_with_id(old(chunks)@, id).push(chunk.bytes@)
            } else {
                bytes_with_id(old(chunks)@, id)
            },
{
    let ghost before = chunks@;
    let mut at: usize = chunks.len();
    while at > 0 && chunks[at - 1].id > chunk.id
        invariant
            chunks@ == before,
            at <= before.len(),
            forall|i: int| at <= i < before.len() ==> (#[trigger] before[i]).id > chunk.id,
        decreases at,
    {
        at = at - 1;
    }
    chunks.insert(at, chunk);
    proof {
        let after = chunks@;
        assert forall|id: u32| #[trigger] bytes_with_id(after, id) == if id == chunk.id {
            bytes_with_id(before, id).push(chunk.bytes@)
        } else {
            bytes_with_id(before, id)
        } by {
            lemma_insert_bytes(before, at as int, chunk, id);
        }
        assert forall|i: int, j: int| 0 <= i <= j < after.len() implies (#[trigger] after[i]).id
            <= (#[trigger] after[j]).id by {
            if i < at {
                assert(after[i] == before[i]);
                assert(before[i].id <= before[at - 1].id);
            } else if i > at {
                assert(after[i] == before[i - 1]);
            }
            if j < at {
                assert(after[j] == before[j]);
            } else if j > at {
                assert(after[j] == before[j - 1]);
            }
        }
    }
}

/// Sorts chunks by their numbers; those with equal numbers keep their order.
pub fn sort_chunks(chunks: Vec<Chunk>) -> (sorted: Vec<Chunk>)
    ensures
        by_number(sorted@),
        same_chunks(sorted@, chunks@),
{
    let ghost all = chunks@;
    let mut rest = chunks;
    let mut sorted: Vec<Chunk> = Vec::new();
    let total: usize = rest.len();
    let mut done: usize = 0;
    assert(all.take(0) =~= Seq::<Chunk>::empty());
    assert(rest@ =~= all.skip(0));
    while done < total
        invariant
            total == all.len(),
            done <= total,
            rest@ == all.skip(done as int),
            by_number(sorted@),
            same_chunks(sorted@, all.take(done as int)),
        decreases total - done,
    {
        let ghost before = sorted@;
        let ghost taken = all.take(done as int);
        let chunk = rest.remove(0);
        assert(chunk == all[done as int]);
        insert_sorted(&mut sorted, chunk);
        proof {
            let next = all.take(done + 1);
            assert(next.drop_last() =~= taken);
            assert(next.last() == all[done as int]);
            assert(rest@ =~= all.skip(done + 1));
            assert forall|id: u32| #[trigger] bytes_with_id(sorted@, id) == bytes_with_id(
                next,
                id,
            ) by {
                assert(bytes_with_id(before, id) == bytes_with_id(taken, id));
            }
        }
        done = done + 1;
    }
    assert(all.take(done as int) =~= all);
    sorted
}

/// Why chunks cannot be put into a given order.
#[derive(Debug, PartialEq, Eq)]
pub enum OrderError {
    /// A line is no number. Lines count from one.
    InvalidLine { line: usize },
    /// A number comes a second time.
    Duplicate { line: usize, id: u32 },
    /// No number is given.
    Empty,
    /// There is no such chunk.
    Unknown { id: u32 },
    /// Chunks that the order leaves out.
    Missing { ids: Vec<u32> },
}

/// What a line of an order file says: what stands before a comment.
pub open spec fn order_line(line: Seq<char>) -> Seq<char> {
    trimmed(line.take(first_place(line, '#')))
}

/// The numbers on the first lines.
pub open spec fn order_numbers(lines: Seq<Seq<char>>, count: int) -> Seq<u32>
    decreases count,
{
    if count <= 0 {
        Seq::empty()
    } else {
        let so_far = order_numbers(lines, count - 1);
        let text = order_line(lines[count - 1]);
        if text.len() == 0 {
            so_far
        } else {
            match parsed_u32(text) {
                Some(id) => so_far.push(id),
                None => so_far,
            }
        }
    }
}

/// A line is empty, or holds a number that did not come before.
pub open spec fn line_is_fine(lines: Seq<Seq<char>>, index: int) -> bool {
    let text = order_line(lines[index]);
    text.len() == 0 || (parsed_u32(text) matches Some(id) && !order_numbers(
        lines,
        index,
    ).contains(id))
}

/// The first lines are fine.
pub open spec fn lines_are_fine(lines: Seq<Seq<char>>, count: int) -> bool {
    forall|i: int| 0 <= i < count ==> #[trigger] line_is_fine(lines, i)
}

fn holds(numbers: &Vec<u32>, id: u32) -> (result: bool)
    ensures
        result == numbers@.contains(id),
{
    let mut i: usize = 0;
    while i < numbers.len()
        invariant
            i <= numbers@.len(),
            forall|j: int| 0 <= j < i ==> numbers@[j] != id,
        decreases numbers@.len() - i,
    {
        if numbers[i] == id {
            assert(numbers@[i as int] == id);
            return true;
        }
        i = i + 1;
    }
    false
}

/// Reads an order file: a number per line, comments after `#`, empty lines
/// skipped. The first line that is wrong ends the work.
pub fn read_embedded_world_pack_order(text: &str) -> (order: Result<Vec<u32>, OrderError>)
    ensures
        ({
            let lines = lines_of(text@);
            match order {
                Ok(order) => lines_are_fine(lines, lines.len() as int) && order@ == order_numbers(
                    lines,
                    lines.len() as int,
                ),
                Err(OrderError::InvalidLine { line }) => 1 <= line <= lines.len() && lines_are_fine(
                    lines,
                    line - 1,
                ) && order_line(lines[line - 1]).len() > 0 && parsed_u32(
                    order_line(lines[line - 1]),
                ) is None,
                Err(OrderError::Duplicate { line, id }) => 1 <= line <= lines.len()
                    && lines_are_fine(lines, line - 1) && order_line(lines[line - 1]).len() > 0
                    && parsed_u32(order_line(lines[line - 1])) == Some(id) && order_numbers(
                    lines,
                    line - 1,
                ).contains(id),
                Err(_) => false,
            }
        }),
{
    let lines = split_lines(text);
    let ghost views = line_views(lines@);
    let mut order: Vec<u32> = Vec::new();
    let mut i: usize = 0;
    while i < lines.len()
        invariant
            i <= lines@.len(),
            views == line_views(lines@),
            views == lines_of(text@),
            lines_are_fine(views, i as int),
            order@ == order_numbers(views, i as int),
        decreases lines@.len() - i,
    {
        let line = &lines[i];
        assert(views[i as int] == line@);
        let end: usize = find_from(line, 0, '#');
        let said = part(line, 0, end);
        proof {
            assert(line@.skip(0) =~= line@);
            assert(said@ =~= line@.take(first_place(line@, '#')));
        }
        let number = trim(&said);
        if number.len() > 0 {
            match parse_u32(&number) {
                None => {
                    return Err(OrderError::InvalidLine { line: i + 1 });
                },
                Some(id) => {
                    if holds(&order, id) {
                        return Err(OrderError::Duplicate { line: i + 1, id });
                    }
                    order.push(id);
                },
            }
        }
        assert(line_is_fine(views, i as int));
        i = i + 1;
    }
    Ok(order)
}

/// The place of the first chunk with a number.
pub open spec fn chunk_place(chunks: Seq<Chunk>, id: u32) -> int
    decreases chunks.len(),
{
    if chunks.len() == 0 || chunks[0].id == id {
        0
    } else {
        1 + chunk_place(chunks.drop_first(), id)
    }
}

proof fn lemma_chunk_place(chunks: Seq<Chunk>, id: u32, at: int)
    requires
        0 <= at <= chunks.len(),
        forall|i: int| 0 <= i < at ==> (#[trigger] chunks[i]).id != id,
        at < chunks.len() ==> chunks[at].id == id,
    ensures
        chunk_place(chunks, id) == at,
    decreases chunks.len(),
{
    if at > 0 {
        assert(chunks[0].id != id);
        let rest = chunks.drop_first();
        assert forall|i: int| 0 <= i < at - 1 implies (#[trigger] rest[i]).id != id by {
            assert(rest[i] == chunks[i + 1]);
        }
        lemma_chunk_place(rest, id, at - 1);
    }
}

/// What is left of the chunks once the first numbers of an order are taken.
pub open spec fn chunks_left(chunks: Seq<Chunk>, order: Seq<u32>, count: int) -> Seq<Chunk>
    decreases count,
{
    if count <= 0 {
        chunks
    } else {
        let left = chunks_left(chunks, order, count - 1);
        left.remove(chunk_place(left, order[count - 1]))
    }
}

/// The chunks that the first numbers of an order take.
pub open spec fn chunks_taken(chunks: Seq<Chunk>, order: Seq<u32>, count: int) -> Seq<Chunk>
    decreases count,
{
    if count <= 0 {
        Seq::empty()
    } else {
        let left = chunks_left(chunks, order, count - 1);
        chunks_taken(chunks, order, count - 1).push(left[chunk_place(left, order[count - 1])])
    }
}

/// The first numbers of an order are all there.
pub open spec fn order_is_known(chunks: Seq<Chunk>, order: Seq<u32>, count: int) -> bool {
    forall|k: int|
        0 <= k < count ==> {
            let left = #[trigger] chunks_left(chunks, order, k);
            chunk_place(left, order[k]) < left.len()
        }
}

/// The numbers of chunks.
pub open spec fn chunk_ids(chunks: Seq<Chunk>) -> Seq<u32> {
    Seq::new(chunks.len(), |i: int| chunks[i].id)
}

/// What comes of putting chunks into an order: the chunks as the order takes
/// them, or the first thing that is wrong with it.
pub open spec fn order_outcome(
    chunks: Seq<Chunk>,
    order: Seq<u32>,
    result: Result<Vec<Chunk>, OrderError>,
) -> bool {
    match result {
        Ok(ordered) => {
            &&& order.len() > 0
            &&& order_is_known(chunks, order, order.len() as int)
            &&& chunks_left(chunks, order, order.len() as int).len() == 0
            &&& ordered@ == chunks_taken(chunks, order, order.len() as int)
        },
        Err(OrderError::Empty) => order.len() == 0,
        Err(OrderError::Unknown { id }) => exists|k: int|
            {
                &&& 0 <= k < order.len()
                &&& order[k] == id
                &&& order_is_known(chunks, order, k)
                &&& chunk_place(#[trigger] chunks_left(chunks, order, k), id) == chunks_left(
                    chunks,
                    order,
                    k,
                ).len()
            },
        Err(OrderError::Missing { ids }) => {
            &&& order.len() > 0
            &&& order_is_known(chunks, order, order.len() as int)
            &&& chunks_left(chunks, order, order.len() as int).len() > 0
            &&& ids@ == chunk_ids(chunks_left(chunks, order, order.len() as int))
        },
        Err(_) => false,
    }
}

/// Puts chunks into a given order, which has to name every one of them.
pub fn apply_embedded_world_pack_order(chunks: Vec<Chunk>, order: &Vec<u32>) -> (result: Result<
    Vec<Chunk>,
    OrderError,
>)
    ensures
        order_outcome(chunks@, order@, result),
{
    if order.len() == 0 {
        return Err(OrderError::Empty);
    }
    let ghost all = chunks@;
    let mut left = chunks;
    let mut ordered: Vec<Chunk> = Vec::new();
    let mut k: usize = 0;
    while k < order.len()
        invariant
            all == chunks@,
            k <= order@.len(),
            order_is_known(all, order@, k as int),
            left@ == chunks_left(all, order@, k as int),
            ordered@ == chunks_taken(all, order@, k as int),
        decreases order@.len() - k,
    {
        let id: u32 = order[k];
        let mut at: usize = 0;
        while at < left.len() && left[at].id != id
            invariant
                at <= left@.len(),
                forall|i: int| 0 <= i < at ==> (#[trigger] left@[i]).id != id,
            decreases left@.len() - at,
        {
            at = at + 1;
        }
        proof {
            lemma_chunk_place(left@, id, at as int);
        }
        if at == left.len() {
            assert(chunk_place(chunks_left(all, order@, k as int), id) == left@.len());
            return Err(OrderError::Unknown { id });
        }
        ordered.push(left.remove(at));
        k = k + 1;
    }
    if left.len() > 0 {
        let mut ids: Vec<u32> = Vec::new();
        let mut i: usize = 0;
        while i < left.len()
            invariant
                i <= left@.len(),
                ids@ == chunk_ids(left@).take(i as int),
            decreases left@.len() - i,
        {
            ids.push(left[i].id);
            assert(chunk_ids(left@).take(i + 1) =~= chunk_ids(left@).take(i as int).push(
                left@[i as int].id,
            ));
            i = i + 1;
        }
        assert(chunk_ids(left@).take(i as int) =~= chunk_ids(left@));
        return Err(OrderError::Missing { ids });
    }
    Ok(ordered)
}

proof fn lemma_taken(chunks: Seq<Chunk>, order: Seq<u32>, count: int)
    requires
        0 <= count <= order.len(),
        order_is_known(chunks, order, count),
    ensures
        chunks_taken(chunks, order, count).len() == count,
        chunks_left(chunks, order, count).len() + count == chunks.len(),
        chunk_ids(chunks_taken(chunks, order, count)) == order.take(count),
        chunks_taken(chunks, order, count).to_multiset().add(
            chunks_left(chunks, order, count).to_multiset(),
        ) == chunks.to_multiset(),
    decreases count,
{
    if count <= 0 {
        assert(chunk_ids(chunks_taken(chunks, order, count)) =~= order.take(count));
        assert(Seq::<Chunk>::empty().to_multiset() =~= vstd::multiset::Multiset::empty()) by {
            Seq::<Chunk>::empty().to_multiset_ensures();
        }
        assert(vstd::multiset::Multiset::<Chunk>::empty().add(chunks.to_multiset())
            =~= chunks.to_multiset());
    } else {
        assert(order_is_known(chunks, order, count - 1)) by {
            assert forall|k: int| 0 <= k < count - 1 implies {
                let left = #[trigger] chunks_left(chunks, order, k);
                chunk_place(left, order[k]) < left.len()
            } by {}
        }
        lemma_taken(chunks, order, count - 1);
        let left = chunks_left(chunks, order, count - 1);
        let taken = chunks_taken(chunks, order, count - 1);
        let at = chunk_place(left, order[count - 1]);
        lemma_place_in(left, order[count - 1]);
        let chunk = left[at];
        assert(chunk_ids(taken.push(chunk)) =~= chunk_ids(taken).push(chunk.id));
        assert(order.take(count) =~= order.take(count - 1).push(order[count - 1]));
        taken.to_multiset_ensures();
        left.to_multiset_ensures();
        assert(left.to_multiset().count(chunk) > 0) by {
            assert(left.contains(chunk));
        }
        assert(taken.push(chunk).to_multiset().add(left.remove(at).to_multiset())
            =~= taken.to_multiset().add(left.to_multiset()));
    }
}

proof fn lemma_place_in(chunks: Seq<Chunk>, id: u32)
    ensures
        0 <= chunk_place(chunks, id) <= chunks.len(),
        chunk_place(chunks, id) < chunks.len() ==> chunks[chunk_place(chunks, id)].id == id,
    decreases chunks.len(),
{
    if chunks.len() > 0 && chunks[0].id != id {
        lemma_place_in(chunks.drop_first(), id);
    }
}

/// Chunks in a given order are the same chunks, with the numbers of the order.
pub proof fn law_order_moves_every_chunk_once(chunks: Seq<Chunk>, order: Seq<u32>)
    requires
        order_is_known(chunks, order, order.len() as int),
        chunks_left(chunks, order, order.len() as int).len() == 0,
    ensures
        ({
            let ordered = chunks_taken(chunks, order, order.len() as int);
            &&& chunk_ids(ordered) == order
            &&& ordered.to_multiset() == chunks.to_multiset()
        }),
{
    let count = order.len() as int;
    lemma_taken(chunks, order, count);
    let left = chunks_left(chunks, order, count);
    assert(left =~= Seq::<Chunk>::empty());
    assert(order.take(count) =~= order);
    assert(left.to_multiset() =~= vstd::multiset::Multiset::empty()) by {
        left.to_multiset_ensures();
    }
    assert(chunks_taken(chunks, order, count).to_multiset().add(left.to_multiset())
        =~= chunks_taken(chunks, order, count).to_multiset());
}

/// What goes into a pack: nothing without chunks, else the chunks by rising
/// number, or in a given order.
pub fn pack_chunks(chunks: Vec<Chunk>, order: Option<&Vec<u32>>) -> (result: Result<
    Option<Vec<Chunk>>,
    OrderError,
>)
    ensures
        chunks@.len() == 0 ==> result == Ok::<Option<Vec<Chunk>>, OrderError>(None),
        chunks@.len() > 0 ==> exists|sorted: Seq<Chunk>|
            {
                &&& #[trigger] by_number(sorted)
                &&& same_chunks(sorted, chunks@)
                &&& match order {
                    None => result matches Ok(Some(packed)) && packed@ == sorted,
                    Some(order) => match result {
                        Ok(Some(packed)) => order_outcome(sorted, order@, Ok(packed)),
                        Ok(None) => false,
                        Err(error) => order_outcome(sorted, order@, Err(error)),
                    },
                }
            },
{
    if chunks.len() == 0 {
        return Ok(None);
    }
    let sorted = sort_chunks(chunks);
    assert(by_number(sorted@));
    match order {
        None => Ok(Some(sorted)),
        Some(order) => match apply_embedded_world_pack_order(sorted, order) {
            Ok(packed) => Ok(Some(packed)),
            Err(error) => Err(error),
        },
    }
}

/// A number with three digits at least.
pub open spec fn three_digits(n: nat) -> Seq<char> {
    if n < 10 {
        seq!['0', '0'] + decimal(n)
    } else if n < 100 {
        seq!['0'] + decimal(n)
    } else {
        decimal(n)
    }
}

fn push_three_digits(out: &mut String, n: u64)
    ensures
        final(out)@ == old(out)@ + three_digits(n as nat),
{
    let ghost before = out@;
    if n < 10 {
        out.push('0');
    }
    if n < 100 {
        out.push('0');
    }
    push_decimal(out, n);
    assert(out@ =~= before + three_digits(n as nat));
}

/// The numerals of some numbers.
pub open spec fn numerals(ids: Seq<u32>) -> Seq<Seq<char>> {
    Seq::new(ids.len(), |i: int| decimal(ids[i] as nat))
}

fn push_numbers(out: &mut String, ids: &Vec<u32>)
    ensures
        final(out)@ == old(out)@ + joined(numerals(ids@), ", "@),
{
    let ghost before = out@;
    let mut i: usize = 0;
    assert(before + joined(numerals(ids@).take(0), ", "@) =~= before);
    while i < ids.len()
        invariant
            i <= ids@.len(),
            out@ == before + joined(numerals(ids@).take(i as int), ", "@),
        decreases ids@.len() - i,
    {
        if i > 0 {
            out.append(", ");
        }
        push_decimal(out, ids[i] as u64);
        proof {
            let next = numerals(ids@).take(i + 1);
            assert(next.drop_last() =~= numerals(ids@).take(i as int));
            assert(next.last() == decimal(ids@[i as int] as nat));
            if i == 0 {
                assert(numerals(ids@).take(0) =~= Seq::<Seq<char>>::empty());
                assert(joined(next, ", "@) == next[0]);
            }
            assert(out@ =~= before + joined(next, ", "@));
        }
        i = i + 1;
    }
    assert(numerals(ids@).take(i as int) =~= numerals(ids@));
}

/// What is said of an order that cannot be used.
pub open spec fn order_error_text(error: OrderError, file: Seq<char>) -> Seq<char> {
    match error {
        OrderError::InvalidLine { line } => file + ":"@ + decimal(line as nat)
            + " invalid room id"@,
        OrderError::Duplicate { line, id } => file + ":"@ + decimal(line as nat)
            + " duplicate room id "@ + decimal(id as nat),
        OrderError::Empty => file + ": world pack order is empty"@,
        OrderError::Unknown { id } => file + ": room id "@ + decimal(id as nat)
            + " has no matching room_"@ + three_digits(id as nat) + ".psxw"@,
        OrderError::Missing { ids } => file + ": order file missing room ids "@ + joined(
            numerals(ids@),
            ", "@,
        ),
    }
}

impl OrderError {
    /// What is said of the order in a file.
    pub fn message(&self, file: &str) -> (text: String)
        ensures
            text@ == order_error_text(*self, file@),
    {
        let mut text = String::from_str(file);
        match self {
            OrderError::InvalidLine { line } => {
                text.append(":");
                push_decimal(&mut text, *line as u64);
                text.append(" invalid room id");
            },
            OrderError::Duplicate { line, id } => {
                text.append(":");
                push_decimal(&mut text, *line as u64);
                text.append(" duplicate room id ");
                push_decimal(&mut text, *id as u64);
            },
            OrderError::Empty => {
                text.append(": world pack order is empty");
            },
            OrderError::Unknown { id } => {
                text.append(": room id ");
                push_decimal(&mut text, *id as u64);
                text.append(" has no matching room_");
                push_three_digits(&mut text, *id as u64);
                text.append(".psxw");
            },
            OrderError::Missing { ids } => {
                text.append(": order file missing room ids ");
                push_numbers(&mut text, ids);
            },
        }
        text
    }
}

/// A file is a chunk if its name is the prefix and a number under the wanted
/// extension; with anything else behind the prefix it is misnamed, and under
/// another extension it is none.
pub proof fn law_chunk_files_are_named_by_number(
    wanted: Seq<char>,
    other: Seq<char>,
    prefix: Seq<char>,
    id: u32,
    rest: Seq<char>,
)
    requires
        wanted != other,
    ensures
        chunk_file_of(Some(wanted), Some(prefix + decimal(id as nat)), wanted, prefix) == (
        ChunkFile::Chunk { id }),
        parsed_u32(rest) is None ==> chunk_file_of(Some(wanted), Some(prefix + rest), wanted, prefix)
            == ChunkFile::Invalid,
        chunk_file_of(Some(other), Some(prefix + rest), wanted, prefix) == ChunkFile::Other,
        chunk_file_of(None, Some(prefix + rest), wanted, prefix) == ChunkFile::Other,
        rest.len() < prefix.len() ==> chunk_file_of(Some(wanted), Some(rest), wanted, prefix)
            == ChunkFile::Other,
{
    law_numerals_are_read_back(id as nat);
    assert((prefix + decimal(id as nat)).skip(prefix.len() as int) =~= decimal(id as nat));
    assert((prefix + decimal(id as nat)).take(prefix.len() as int) =~= prefix);
    assert((prefix + rest).skip(prefix.len() as int) =~= rest);
    assert((prefix + rest).take(prefix.len() as int) =~= prefix);
}

/// What follows a number sign on a line of an order file does not count.
pub proof fn law_comments_do_not_count(line: Seq<char>, comment: Seq<char>)
    requires
        !line.contains('#'),
    ensures
        order_line(line) == trimmed(line),
        order_line(line.push('#') + comment) == trimmed(line),
{
    let commented = line.push('#') + comment;
    assert forall|i: int| 0 <= i < line.len() implies #[trigger] line[i] != '#' by {
        assert(line.contains(line[i]));
    }
    lemma_first_place(line, '#', line.len() as int);
    assert(line.take(line.len() as int) =~= line);
    assert forall|i: int| 0 <= i < line.len() implies #[trigger] commented[i] != '#' by {
        assert(commented[i] == line[i]);
    }
    assert(commented[line.len() as int] == '#');
    lemma_first_place(commented, '#', line.len() as int);
    assert(commented.take(line.len() as int) =~= line);
}

proof fn lemma_numeral_line(n: u32)
    ensures
        order_line(decimal(n as nat)) == decimal(n as nat),
        decimal(n as nat).len() > 0,
        parsed_u32(decimal(n as nat)) == Some(n),
{
    let text = decimal(n as nat);
    law_numerals_are_read_back(n as nat);
    assert(text.len() > 0);
    assert forall|i: int| 0 <= i < text.len() implies text[i] != '#' && !is_space(text[i]) by {
        assert(is_digit(text[i]));
    }
    law_comments_do_not_count(text, Seq::empty());
    law_space_around_a_text_is_taken_away(Seq::empty(), text, Seq::empty());
    assert(Seq::<char>::empty() + text + Seq::<char>::empty() =~= text);
}

/// An order that was written a number per line is read back as it was; a number
/// that comes again is refused on its own line.
pub proof fn law_orders_are_read_back(numbers: Seq<u32>, count: int)
    requires
        0 <= count <= numbers.len(),
    ensures
        ({
            let lines = Seq::new(numbers.len(), |i: int| decimal(numbers[i] as nat));
            &&& order_numbers(lines, count) == numbers.take(count)
            &&& numbers.no_duplicates() ==> lines_are_fine(lines, count)
            &&& count < numbers.len() && numbers.take(count).contains(numbers[count])
                ==> !line_is_fine(lines, count)
        }),
    decreases count,
{
    let lines = Seq::new(numbers.len(), |i: int| decimal(numbers[i] as nat));
    if count > 0 {
        law_orders_are_read_back(numbers, count - 1);
        lemma_numeral_line(numbers[count - 1]);
        assert(numbers.take(count) =~= numbers.take(count - 1).push(numbers[count - 1]));
        if numbers.no_duplicates() {
            assert forall|i: int| 0 <= i < count implies #[trigger] line_is_fine(lines, i) by {
                if i == count - 1 {
                    let before = numbers.take(count - 1);
                    if before.contains(numbers[count - 1]) {
                        let k = choose|k: int|
                            0 <= k < before.len() && before[k] == numbers[count - 1];
                        assert(numbers[k] == numbers[count - 1]);
                    }
                }
            }
        }
    } else {
        assert(numbers.take(0) =~= Seq::<u32>::empty());
    }
    if count < numbers.len() {
        lemma_numeral_line(numbers[count]);
    }
}

/// A number has its own digits, with as many zeros in front as make three.
pub proof fn law_numbers_have_three_digits(n: nat)
    ensures
        ({
            let own = decimal(n);
            let text = three_digits(n);
            &&& text.len() >= 3 && text.len() >= own.len()
            &&& text.len() == 3 || text.len() == own.len()
            &&& text.skip(text.len() - own.len()) == own
            &&& forall|i: int| 0 <= i < text.len() - own.len() ==> #[trigger] text[i] == '0'
        }),
{
    reveal_with_fuel(decimal, 3);
    let own = decimal(n);
    let text = three_digits(n);
    assert(n >= 10 ==> decimal(n / 10).len() >= 1);
    assert(n >= 100 ==> own.len() >= 3) by {
        if n >= 100 {
            assert(decimal(n / 10 / 10).len() >= 1);
        }
    }
    assert(text.skip(text.len() - own.len()) =~= own);
}

} // verus!
