//! The page layout of paged storage and the decisions of its writer.
//!
//! A file is a run of pages of `K` KiB. Each page starts with a header of
//! `PAGE_HEADER_SIZE` bytes: the id of the page that continues it, then the id
//! of the page it continues, each as eight big-endian bytes (zero for none).
//! Page zero is reserved; its data starts with the lowest id never handed out.
use vstd::prelude::*;

use crate::serialize_fast::{be_bytes, be_read, MinimalSerdeFast};
use crate::pooled_storage::le_bytes_of;
use crate::serialize_min::{DecodeError, DeserializeFromMinimal, SerializeMinimal};

verus! {

pub const THOUSAND: usize = 1024;

pub const PAGE_HEADER_SIZE: usize = 16;

/// The number of a page in a file of pages of `PAGE_SIZE` KiB.
#[derive(Debug, Clone, Copy)]
pub struct PageId<const PAGE_SIZE: usize>(pub usize);

/// The first byte of page `id` in a file of pages of `k` KiB.
pub open spec fn page_start(id: nat, k: nat) -> nat {
    id * k * 1024
}

impl<const K: usize> PageId<K> {
    pub fn new(inner: usize) -> (r: Self)
        ensures
            r.0 == inner,
    {
        PageId(inner)
    }

    /// The first byte of the page.
    pub fn byte_offset(&self) -> (r: u64)
        requires
            page_start(self.0 as nat, K as nat) <= usize::MAX,
        ensures
            r == page_start(self.0 as nat, K as nat),
    {
        proof {
            lemma_mul_fits(self.0 as nat, K as nat);
        }
        (self.0 * K * THOUSAND) as u64
    }

    /// The first byte after the page header.
    pub fn data_byte_offset(&self) -> (r: u64)
        requires
            page_start(self.0 as nat, K as nat) + PAGE_HEADER_SIZE <= usize::MAX,
        ensures
            r == page_start(self.0 as nat, K as nat) + PAGE_HEADER_SIZE,
    {
        proof {
            lemma_mul_fits(self.0 as nat, K as nat);
        }
        (self.0 * K * THOUSAND + PAGE_HEADER_SIZE) as u64
    }

    /// The first byte after the page.
    pub fn end_byte_offset(&self) -> (r: u64)
        requires
            self.0 < usize::MAX,
            page_start(self.0 as nat + 1, K as nat) <= usize::MAX,
        ensures
            r == page_start(self.0 as nat + 1, K as nat),
    {
        proof {
            lemma_mul_fits(self.0 as nat + 1, K as nat);
        }
        ((self.0 + 1) * K * THOUSAND) as u64
    }

    /// The id, unless it is the reserved page zero, which stands for none.
    pub fn as_valid(self) -> (r: Option<PageId<K>>)
        ensures
            r == if self.0 == 0 {
                None
            } else {
                Some(self)
            },
    {
        match self.0 {
            0 => None,
            i => Some(PageId(i)),
        }
    }

    /// The bytes of a page that hold data.
    pub fn data_size() -> (r: usize)
        requires
            PAGE_HEADER_SIZE <= K * 1024 <= usize::MAX,
        ensures
            r == K * 1024 - PAGE_HEADER_SIZE,
    {
        K * THOUSAND - PAGE_HEADER_SIZE
    }

    /// The bytes of a page.
    pub fn byte_size() -> (r: usize)
        requires
            K * 1024 <= usize::MAX,
        ensures
            r == K * 1024,
    {
        K * THOUSAND
    }
}

proof fn lemma_mul_fits(id: nat, k: nat)
    ensures
        id * k * 1024 == (id * k) * 1024,
        id * k * 1024 >= id * k,
        id * k >= 0,
{
    assert(id * k >= 0) by (nonlinear_arith);
    assert((id * k) * 1024 >= id * k) by (nonlinear_arith);
}

impl<const K: usize> SerializeMinimal for PageId<K> {
    type ExternalData = ();

    open spec fn serializable(&self, external_data: ()) -> bool {
        true
    }

    /// An id is written as eight big-endian bytes.
    open spec fn serialized(&self, external_data: ()) -> Seq<u8> {
        be_bytes(self.0 as nat, 8)
    }

    fn minimally_serialize(&self, write_to: &mut Vec<u8>, external_data: ()) {
        (self.0 as u64).fast_minimally_serialize(write_to, ());
    }
}

impl<const K: usize> DeserializeFromMinimal for PageId<K> {
    type ExternalData = ();

    /// Reading is defined where the number read fits the machine.
    open spec fn deserializable(bytes: Seq<u8>, external_data: ()) -> bool {
        be_read(bytes, 8).0 matches Ok(v) ==> v <= usize::MAX
    }

    open spec fn deserialized(bytes: Seq<u8>, external_data: ()) -> (Result<PageId<K>, DecodeError>, nat) {
        match be_read(bytes, 8) {
            (Ok(v), n) => (Ok(PageId(v as usize)), n),
            (Err(e), n) => (Err(e), n),
        }
    }

    fn deserialize_minimal(from: &mut &[u8], external_data: ()) -> (r: Result<PageId<K>, DecodeError>) {
        match <u64 as MinimalSerdeFast>::fast_deserialize_minimal(from, ()) {
            Ok(v) => Ok(PageId(v as usize)),
            Err(e) => Err(e),
        }
    }
}

/// Reading back a written id gives the id.
pub proof fn lemma_page_id_roundtrip<const K: usize>(id: PageId<K>, rest: Seq<u8>)
    ensures
        <PageId<K> as DeserializeFromMinimal>::deserializable(SerializeMinimal::serialized(&id, ()) + rest, ()),
        <PageId<K> as DeserializeFromMinimal>::deserialized(SerializeMinimal::serialized(&id, ()) + rest, ()) == (
            Ok::<PageId<K>, DecodeError>(id),
            8nat,
        ),
{
    assert(crate::serialize_fast::byte_limit(8) == 0x1_0000_0000_0000_0000) by {
        reveal_with_fuel(crate::serialize_fast::byte_limit, 9);
    }
    crate::serialize_fast::lemma_be_roundtrip(id.0 as nat, 8);
    let e = be_bytes(id.0 as nat, 8);
    assert((e + rest).take(8) =~= e);
}

/// Takes the first item off the front of `slice`.
pub fn slice_pop<'a, 'b, T>(slice: &'a mut &'b [T]) -> (r: Option<&'b T>)
    ensures
        old(slice)@.len() == 0 ==> r is None && final(slice)@ == old(slice)@,
        old(slice)@.len() > 0 ==> r == Some(&old(slice)@[0]) && final(slice)@
            == old(slice)@.drop_first(),
{
    if slice.len() == 0 {
        return None;
    }
    let head = &slice[0];
    let (_, rest) = slice.split_at(1);
    *slice = rest;
    Some(head)
}

/// Where the writer of a value stands: before a page it was given, within a
/// page it was given, within a page it allocated, or at the end of a page
/// with no page left to continue in.
pub enum WriterState<'a, const PAGE_SIZE_K: usize> {
    Begin { to_write: &'a [PageId<PAGE_SIZE_K>] },
    WritingAllocated {
        written: usize,
        current: PageId<PAGE_SIZE_K>,
        to_write: &'a [PageId<PAGE_SIZE_K>],
    },
    WritingNew { written: usize, current: PageId<PAGE_SIZE_K> },
    NeedsNewAllocation { previous: PageId<PAGE_SIZE_K> },
}

impl<'a, const K: usize> WriterState<'a, K> {
    /// Whether the writer is within a page.
    pub open spec fn in_page(&self) -> bool {
        self is WritingAllocated || self is WritingNew
    }

    /// The bytes written to the current page.
    pub open spec fn written(&self) -> nat {
        match self {
            WriterState::WritingAllocated { written, .. } => *written as nat,
            WriterState::WritingNew { written, .. } => *written as nat,
            _ => 0,
        }
    }

    /// Counts `addend` more bytes written to the current page.
    pub fn increase_data_offset(&mut self, addend: usize)
        requires
            old(self).in_page(),
            old(self).written() + addend <= usize::MAX,
        ensures
            *final(self) == (match *old(self) {
                WriterState::WritingAllocated { written, current, to_write } => {
                    WriterState::WritingAllocated {
                        written: (written + addend) as usize,
                        current,
                        to_write,
                    }
                },
                WriterState::WritingNew { written, current } => WriterState::WritingNew {
                    written: (written + addend) as usize,
                    current,
                },
                other => other,
            }),
    {
        match self {
            WriterState::WritingAllocated { written, .. } => *written = *written + addend,
            WriterState::WritingNew { written, .. } => *written = *written + addend,
            _ => {},
        }
    }
}

/// The pages a writer was given and did not reach.
pub open spec fn pages_left_over<'a, const K: usize>(state: WriterState<'a, K>) -> Seq<PageId<K>> {
    match state {
        WriterState::Begin { to_write } => to_write@,
        WriterState::WritingAllocated { to_write, .. } => to_write@,
        _ => Seq::empty(),
    }
}

fn copy_ids<const K: usize>(ids: &[PageId<K>]) -> (r: Vec<PageId<K>>)
    ensures
        r@ == ids@,
{
    let mut r: Vec<PageId<K>> = Vec::new();
    let mut i: usize = 0;
    while i < ids.len()
        invariant
            i <= ids@.len(),
            r@ == ids@.take(i as int),
        decreases ids@.len() - i,
    {
        r.push(ids[i]);
        i = i + 1;
        assert(r@ =~= ids@.take(i as int));
    }
    assert(ids@.take(ids@.len() as int) =~= ids@);
    r
}

/// Settles the pages of a value once it was written: the pages the writer
/// did not reach leave the end of `component_pages` and are answered, to be
/// freed, and the pages the writer allocated join at the end.
pub fn settle_component_pages<'a, const K: usize>(
    component_pages: &mut Vec<PageId<K>>,
    added_pages: &Vec<PageId<K>>,
    state: &WriterState<'a, K>,
) -> (r: Vec<PageId<K>>)
    requires
        pages_left_over(*state).len() <= old(component_pages)@.len(),
    ensures
        r@ == pages_left_over(*state),
        final(component_pages)@ == old(component_pages)@.take(
            old(component_pages)@.len() - pages_left_over(*state).len(),
        ) + added_pages@,
{
    let mut freed: Vec<PageId<K>> = Vec::new();
    match state {
        WriterState::Begin { to_write } => {
            freed = copy_ids(to_write);
        },
        WriterState::WritingAllocated { to_write, .. } => {
            freed = copy_ids(to_write);
        },
        _ => {},
    }
    let valid_written_len = component_pages.len() - freed.len();
    component_pages.truncate(valid_written_len);
    let mut i: usize = 0;
    let ghost kept = component_pages@;
    while i < added_pages.len()
        invariant
            i <= added_pages@.len(),
            component_pages@ == kept + added_pages@.take(i as int),
        decreases added_pages@.len() - i,
    {
        component_pages.push(added_pages[i]);
        i = i + 1;
        assert(component_pages@ =~= kept + added_pages@.take(i as int));
    }
    assert(added_pages@.take(added_pages@.len() as int) =~= added_pages@);
    freed
}

/// Where the next bytes go: a page and the data bytes already written to it,
/// or a new page that must first be allocated after `previous`.
#[derive(Debug, Clone, Copy)]
pub enum WriteTarget<const K: usize> {
    Page { page: PageId<K>, offset: usize },
    AllocateAfter { previous: PageId<K> },
}

/// Picks the page for the next bytes. A writer before a page moves into it.
pub fn write_target<'a, const K: usize>(state: &mut WriterState<'a, K>) -> (r: WriteTarget<K>)
    requires
        *old(state) matches WriterState::Begin { to_write } ==> to_write@.len() > 0,
    ensures
        match *old(state) {
            WriterState::Begin { to_write } => {
                &&& r == WriteTarget::Page { page: to_write@[0], offset: 0 }
                &&& *final(state) matches WriterState::WritingAllocated { written, current, to_write: rest }
                    && written == 0 && current == to_write@[0] && rest@ == to_write@.drop_first()
            },
            WriterState::WritingAllocated { written, current, .. } => r == WriteTarget::Page {
                page: current,
                offset: written,
            } && *final(state) == *old(state),
            WriterState::WritingNew { written, current } => r == WriteTarget::Page {
                page: current,
                offset: written,
            } && *final(state) == *old(state),
            WriterState::NeedsNewAllocation { previous } => r == WriteTarget::AllocateAfter {
                previous,
            } && *final(state) == *old(state),
        },
{
    match *state {
        WriterState::Begin { to_write } => {
            let mut rest = to_write;
            let current = *slice_pop(&mut rest).unwrap();
            *state = WriterState::WritingAllocated { written: 0, current, to_write: rest };
            WriteTarget::Page { page: current, offset: 0 }
        },
        WriterState::WritingAllocated { written, current, .. } => WriteTarget::Page {
            page: current,
            offset: written,
        },
        WriterState::WritingNew { written, current } => WriteTarget::Page {
            page: current,
            offset: written,
        },
        WriterState::NeedsNewAllocation { previous } => WriteTarget::AllocateAfter { previous },
    }
}

/// Moves the writer into a page that was just allocated for it.
pub fn start_new_page<'a, const K: usize>(state: &mut WriterState<'a, K>, current: PageId<K>)
    ensures
        *final(state) == (WriterState::WritingNew { written: 0, current }),
{
    *state = WriterState::WritingNew { written: 0, current };
}

/// How many of `buf_len` bytes fit in a page with `offset` data bytes written,
/// and the file position they go to.
pub fn write_window<const K: usize>(page: PageId<K>, offset: usize, buf_len: usize) -> (r: (
    u64,
    usize,
))
    requires
        PAGE_HEADER_SIZE <= K * 1024,
        offset <= K * 1024 - PAGE_HEADER_SIZE,
        page_start(page.0 as nat + 1, K as nat) <= usize::MAX,
    ensures
        r.0 == page_start(page.0 as nat, K as nat) + PAGE_HEADER_SIZE + offset,
        r.1 == if buf_len < K * 1024 - PAGE_HEADER_SIZE - offset {
            buf_len as int
        } else {
            K * 1024 - PAGE_HEADER_SIZE - offset
        },
{
    proof {
        assert(page_start(page.0 as nat + 1, K as nat) == page_start(page.0 as nat, K as nat) + K
            * 1024) by (nonlinear_arith);
    }
    let remaining = PageId::<K>::data_size() - offset;
    let len = if buf_len < remaining {
        buf_len
    } else {
        remaining
    };
    (page.data_byte_offset() + offset as u64, len)
}

/// The writer after `write_amnt` bytes went to the current page, which had
/// `remaining` data bytes free: a full page hands over to the next page given,
/// or to a page still to be allocated; otherwise the count grows.
pub fn after_write<'a, const K: usize>(
    state: &mut WriterState<'a, K>,
    write_amnt: usize,
    remaining: usize,
)
    requires
        old(state).in_page(),
        write_amnt <= remaining,
        old(state).written() + remaining <= usize::MAX,
    ensures
        write_amnt == remaining ==> match *old(state) {
            WriterState::WritingAllocated { current, to_write, .. } => if to_write@.len() == 0 {
                *final(state) == (WriterState::NeedsNewAllocation { previous: current })
            } else {
                *final(state) == (WriterState::Begin { to_write })
            },
            WriterState::WritingNew { current, .. } => *final(state) == (
            WriterState::NeedsNewAllocation { previous: current }),
            _ => false,
        },
        write_amnt < remaining ==> final(state).in_page() && final(state).written()
            == old(state).written() + write_amnt && current_page(*final(state)) == current_page(
            *old(state),
        ),
{
    if write_amnt == remaining {
        match *state {
            WriterState::WritingAllocated { current, to_write, .. } => {
                if to_write.len() == 0 {
                    *state = WriterState::NeedsNewAllocation { previous: current };
                } else {
                    *state = WriterState::Begin { to_write };
                }
            },
            WriterState::WritingNew { current, .. } => {
                *state = WriterState::NeedsNewAllocation { previous: current };
            },
            _ => {},
        }
    } else {
        state.increase_data_offset(write_amnt);
    }
}

/// Where a reader of a run of pages stands: the page being read, how much of
/// its data was read, and, where `B` holds, the ids of the pages it moved on to.
pub struct PageReadPosition<const K: usize, const B: bool> {
    pub page_ids_acc: Vec<PageId<K>>,
    pub current_page_id: PageId<K>,
    pub current_page_read_amount: usize,
}

impl<const K: usize, const B: bool> PageReadPosition<K, B> {
    /// The file position to read from and how much to read: at most
    /// `buf_len`, and no further than the end of the page's data.
    pub fn read_window(&self, buf_len: usize) -> (r: (u64, usize))
        requires
            PAGE_HEADER_SIZE <= K * 1024,
            self.current_page_read_amount <= K * 1024 - PAGE_HEADER_SIZE,
            page_start(self.current_page_id.0 as nat + 1, K as nat) <= usize::MAX,
        ensures
            r.0 == page_start(self.current_page_id.0 as nat, K as nat) + PAGE_HEADER_SIZE
                + self.current_page_read_amount,
            r.1 == if buf_len < K * 1024 - PAGE_HEADER_SIZE - self.current_page_read_amount {
                buf_len as int
            } else {
                K * 1024 - PAGE_HEADER_SIZE - self.current_page_read_amount
            },
    {
        write_window(self.current_page_id, self.current_page_read_amount, buf_len)
    }

    /// Counts `read_count` bytes as read, and answers whether the page's
    /// data is used up, so that its header must be read for the next page.
    pub fn after_read(&mut self, read_count: usize) -> (r: bool)
        requires
            PAGE_HEADER_SIZE <= K * 1024 <= usize::MAX,
            old(self).current_page_read_amount + read_count <= K * 1024 - PAGE_HEADER_SIZE,
        ensures
            final(self).current_page_read_amount == old(self).current_page_read_amount
                + read_count,
            final(self).current_page_id == old(self).current_page_id,
            final(self).page_ids_acc@ == old(self).page_ids_acc@,
            r == (final(self).current_page_read_amount == K * 1024 - PAGE_HEADER_SIZE),
    {
        self.current_page_read_amount = self.current_page_read_amount + read_count;
        self.current_page_read_amount == PageId::<K>::data_size()
    }

    /// Moves on to the page that continues the one read, where there is one,
    /// recording it where `B` holds; with none, stays where it is.
    pub fn move_to_next(&mut self, next_page_id: Option<PageId<K>>)
        ensures
            next_page_id is None ==> *final(self) == *old(self),
            next_page_id matches Some(n) ==> {
                &&& final(self).current_page_id == n
                &&& final(self).current_page_read_amount == 0
                &&& final(self).page_ids_acc@ == if B {
                    old(self).page_ids_acc@.push(n)
                } else {
                    old(self).page_ids_acc@
                }
            },
    {
        if let Some(next_page_id) = next_page_id {
            if B {
                self.page_ids_acc.push(next_page_id);
            }
            self.current_page_id = next_page_id;
            self.current_page_read_amount = 0;
        }
    }
}

/// What condensing a stored value comes to.
#[derive(Debug, Clone, Copy)]
pub enum CondenseStep<const K: usize> {
    /// The value is in use; nothing is moved.
    InUse,
    /// No lower page could be had: the page given is freed again, and the
    /// value stays where it is.
    Stay { release: PageId<K> },
    /// The value moves to the lower page: its pages are read and freed, and
    /// it is written to the new one.
    MoveTo { page: PageId<K> },
}

/// Whether and where a value stored from `page_id` on moves, given whether
/// it is in use and the page just allocated for it.
pub fn condense_step<const K: usize>(in_use: bool, page_id: PageId<K>, new_page: PageId<K>) -> (r:
    CondenseStep<K>)
    ensures
        in_use ==> r is InUse,
        !in_use && new_page.0 >= page_id.0 ==> (r matches CondenseStep::Stay { release }
            && release.0 == new_page.0),
        !in_use && new_page.0 < page_id.0 ==> (r matches CondenseStep::MoveTo { page } && page.0
            == new_page.0),
{
    if in_use {
        return CondenseStep::InUse;
    }
    if new_page.0 >= page_id.0 {
        CondenseStep::Stay { release: new_page }
    } else {
        CondenseStep::MoveTo { page: new_page }
    }
}

/// The bookkeeping of which pages are in use: every id below
/// `lowest_unallocated_id` was handed out, and freed pages are reused first.
pub struct PageUse<const PAGE_SIZE_K: usize> {
    pub lowest_unallocated_id: usize,
    pub freed_pages: Vec<PageId<PAGE_SIZE_K>>,
}

impl<const K: usize> PageUse<K> {
    /// The bookkeeping of a file of `file_len` bytes: a blank file hands out
    /// page one first (page zero is reserved); any other continues from the
    /// lowest unallocated id that its page zero records.
    pub fn open(file_len: u64, recorded_lowest_unallocated_id: usize) -> (r: Self)
        ensures
            r.lowest_unallocated_id == if file_len == 0 {
                1
            } else {
                recorded_lowest_unallocated_id
            },
            r.freed_pages@.len() == 0,
    {
        let lowest_unallocated_id = if file_len == 0 {
            1
        } else {
            recorded_lowest_unallocated_id
        };
        PageUse { lowest_unallocated_id, freed_pages: Vec::new() }
    }

    /// Hands out a page: the last one freed, else the lowest id never handed
    /// out, which moves up by one.
    pub fn alloc_new(&mut self) -> (r: PageId<K>)
        requires
            old(self).freed_pages@.len() == 0 ==> old(self).lowest_unallocated_id < usize::MAX,
        ensures
            old(self).freed_pages@.len() > 0 ==> r == old(self).freed_pages@.last()
                && final(self).freed_pages@ == old(self).freed_pages@.drop_last()
                && final(self).lowest_unallocated_id == old(self).lowest_unallocated_id,
            old(self).freed_pages@.len() == 0 ==> r.0 == old(self).lowest_unallocated_id
                && final(self).lowest_unallocated_id == old(self).lowest_unallocated_id + 1
                && final(self).freed_pages@ == old(self).freed_pages@,
    {
        if let Some(p) = self.freed_pages.pop() {
            return p;
        }
        let new_id_num = self.lowest_unallocated_id;
        self.lowest_unallocated_id = self.lowest_unallocated_id + 1;
        PageId(new_id_num)
    }

    /// Whether `id` was ever handed out.
    pub fn is_valid(&self, id: &PageId<K>) -> (r: bool)
        ensures
            r == (id.0 < self.lowest_unallocated_id),
    {
        self.lowest_unallocated_id > id.0
    }
}

/// A file image with `bytes` written from `pos` on: a write past the end
/// grows it, zeros filling any gap, as a file grows.
pub open spec fn overwrite(image: Seq<u8>, pos: nat, bytes: Seq<u8>) -> Seq<u8> {
    let len = if image.len() > pos + bytes.len() {
        image.len()
    } else {
        pos + bytes.len()
    };
    Seq::new(
        len,
        |i: int|
            if pos <= i < pos + bytes.len() {
                bytes[i - pos]
            } else if i < image.len() {
                image[i]
            } else {
                0u8
            },
    )
}

/// Writes `bytes` into the file image `image` from `pos` on.
pub fn write_at(image: &mut Vec<u8>, pos: usize, bytes: &[u8])
    requires
        pos + bytes@.len() <= usize::MAX,
    ensures
        final(image)@ == overwrite(old(image)@, pos as nat, bytes@),
{
    let ghost before = image@;
    let end = pos + bytes.len();
    while image.len() < end
        invariant
            end == pos + bytes@.len(),
            before.len() <= image@.len(),
            image@.len() <= (if before.len() > end { before.len() } else { end as nat }),
            forall|j: int| 0 <= j < before.len() ==> image@[j] == before[j],
            forall|j: int| before.len() <= j < image@.len() ==> image@[j] == 0u8,
        decreases end - image@.len(),
    {
        image.push(0u8);
    }
    let mut i: usize = 0;
    while i < bytes.len()
        invariant
            end == pos + bytes@.len(),
            i <= bytes@.len(),
            image@.len() == (if before.len() > end { before.len() } else { end as nat }),
            forall|j: int|
                0 <= j < image@.len() ==> image@[j] == (if pos <= j < pos + i {
                    bytes@[j - pos]
                } else if j < before.len() {
                    before[j]
                } else {
                    0u8
                }),
        decreases bytes@.len() - i,
    {
        image.set(pos + i, bytes[i]);
        i = i + 1;
    }
    assert(image@ =~= overwrite(before, pos as nat, bytes@));
}

/// Whether page `id` of a file of pages of `k` KiB ends within `usize`.
pub open spec fn page_fits(id: nat, k: nat) -> bool {
    page_start(id + 1, k) <= usize::MAX
}

/// The page that a writer is within.
pub open spec fn current_page<'a, const K: usize>(state: WriterState<'a, K>) -> PageId<K> {
    match state {
        WriterState::WritingAllocated { current, .. } => current,
        WriterState::WritingNew { current, .. } => current,
        WriterState::NeedsNewAllocation { previous } => previous,
        WriterState::Begin { to_write } => to_write[0],
    }
}

/// Links page `next` after page `previous` in a file image: the header of
/// `previous` names `next` as the page that continues it, and that of `next`
/// names `previous` as the page it continues.
pub open spec fn linked<const K: usize>(image: Seq<u8>, previous: PageId<K>, next: PageId<K>) -> Seq<u8> {
    overwrite(
        overwrite(image, page_start(previous.0 as nat, K as nat), be_bytes(next.0 as nat, 8)),
        (page_start(next.0 as nat, K as nat) + 8) as nat,
        be_bytes(previous.0 as nat, 8),
    )
}

/// One write of a value's bytes into a file image of pages: the writer picks
/// its page (allocating and linking a new one after the last when it has no
/// page left), writes as much of `buf` as fits in that page, and moves on.
/// Answers how many bytes it wrote.
pub fn write_step<'a, const K: usize>(
    state: &mut WriterState<'a, K>,
    pages: &mut PageUse<K>,
    added_pages: &mut Vec<PageId<K>>,
    image: &mut Vec<u8>,
    buf: &[u8],
) -> (r: usize)
    requires
        PAGE_HEADER_SIZE < K * 1024,
        *old(state) matches WriterState::Begin { to_write } ==> to_write@.len() > 0,
        !(*old(state) is NeedsNewAllocation) ==> page_fits(current_page(*old(state)).0 as nat, K as nat),
        old(state).in_page() ==> old(state).written() < K * 1024 - PAGE_HEADER_SIZE,
        *old(state) is NeedsNewAllocation ==> {
            &&& page_fits(current_page(*old(state)).0 as nat, K as nat)
            &&& old(pages).freed_pages@.len() > 0 ==> page_fits(
                old(pages).freed_pages@.last().0 as nat,
                K as nat,
            )
            &&& old(pages).freed_pages@.len() == 0 ==> old(pages).lowest_unallocated_id < usize::MAX
                && page_fits(old(pages).lowest_unallocated_id as nat, K as nat)
        },
    ensures
        ({
            let fresh = *old(state) is NeedsNewAllocation;
            let page = if fresh {
                final(added_pages)@.last()
            } else {
                current_page(*old(state))
            };
            let offset = if fresh {
                0
            } else {
                old(state).written()
            };
            let room = K * 1024 - PAGE_HEADER_SIZE - offset;
            let before = if fresh {
                linked(
                    if old(pages).freed_pages@.len() > 0 {
                        old(image)@
                    } else {
                        fresh_page_image(old(image)@, page)
                    },
                    current_page(*old(state)),
                    page,
                )
            } else {
                old(image)@
            };
            &&& r == (if buf@.len() < room {
                buf@.len() as int
            } else {
                room
            })
            &&& final(image)@ == overwrite(
                before,
                (page_start(page.0 as nat, K as nat) + PAGE_HEADER_SIZE + offset) as nat,
                buf@.take(r as int),
            )
            &&& fresh ==> final(added_pages)@ == old(added_pages)@.push(page) && (if old(
                pages,
            ).freed_pages@.len() > 0 {
                page == old(pages).freed_pages@.last()
            } else {
                page.0 == old(pages).lowest_unallocated_id
            })
            &&& !fresh ==> final(added_pages)@ == old(added_pages)@ && *final(pages) == *old(pages)
            &&& r < room ==> final(state).in_page() && final(state).written() == offset + r
                && current_page(*final(state)) == page
            &&& r == room ==> match *old(state) {
                WriterState::Begin { to_write } => if to_write@.len() == 1 {
                    *final(state) == (WriterState::NeedsNewAllocation { previous: page })
                } else {
                    *final(state) matches WriterState::Begin { to_write: rest } && rest@
                        == to_write@.drop_first()
                },
                WriterState::WritingAllocated { to_write, .. } => if to_write@.len() == 0 {
                    *final(state) == (WriterState::NeedsNewAllocation { previous: page })
                } else {
                    *final(state) == (WriterState::Begin { to_write })
                },
                _ => *final(state) == (WriterState::NeedsNewAllocation { previous: page }),
            }
        }),
{
    let target = write_target(state);
    let (page, offset) = match target {
        WriteTarget::Page { page, offset } => (page, offset),
        WriteTarget::AllocateAfter { previous } => {
            let new_page = pages.alloc_new_after(image, previous);
            added_pages.push(new_page);
            start_new_page(state, new_page);
            (new_page, 0)
        },
    };
    proof {
        assert(page_start(page.0 as nat + 1, K as nat) == page_start(page.0 as nat, K as nat) + K * 1024) by (nonlinear_arith);
    }
    let (pos, len) = write_window(page, offset, buf.len());
    let (chunk, _) = buf.split_at(len);
    write_at(image, pos as usize, chunk);
    let remaining = PageId::<K>::data_size() - offset;
    after_write(state, len, remaining);
    len
}

/// The bytes written over a file image are found where they were written,
/// followed by what came after them.
proof fn lemma_overwrite_reads_back(image: Seq<u8>, pos: nat, bytes: Seq<u8>)
    ensures
        overwrite(image, pos, bytes).skip(pos as int) =~= bytes + overwrite(image, pos, bytes).skip(
            (pos + bytes.len()) as int,
        ),
{
}

/// Linking a page after another reads back: the header of the first names
/// the second as the page that continues it, and the header of the second
/// names the first as the page it continues.
pub proof fn lemma_link_reads_back<const K: usize>(image: Seq<u8>, previous: PageId<K>, next: PageId<K>)
    requires
        previous.0 != next.0,
        PAGE_HEADER_SIZE <= K * 1024,
    ensures
        ({
            let linked_image = linked(image, previous, next);
            let at_previous = linked_image.skip(page_start(previous.0 as nat, K as nat) as int);
            let at_next = linked_image.skip((page_start(next.0 as nat, K as nat) + 8) as int);
            &&& <PageId<K> as DeserializeFromMinimal>::deserialized(at_previous, ()).0 == Ok::<
                PageId<K>,
                DecodeError,
            >(next)
            &&& <PageId<K> as DeserializeFromMinimal>::deserialized(at_next, ()).0 == Ok::<
                PageId<K>,
                DecodeError,
            >(previous)
        }),
{
    let sp = page_start(previous.0 as nat, K as nat);
    let sn = page_start(next.0 as nat, K as nat);
    let bn = be_bytes(next.0 as nat, 8);
    let bp = be_bytes(previous.0 as nat, 8);
    crate::serialize_fast::lemma_be_bytes_len(next.0 as nat, 8);
    crate::serialize_fast::lemma_be_bytes_len(previous.0 as nat, 8);
    let a = overwrite(image, sp, bn);
    let b = overwrite(a, (sn + 8) as nat, bp);
    assert(sp + 16 <= sn || sn + 16 <= sp) by {
        let k = K as int;
        let p = previous.0 as int;
        let n = next.0 as int;
        if p < n {
            assert(n * k * 1024 - p * k * 1024 == (n - p) * (k * 1024)) by (nonlinear_arith);
            assert((n - p) * (k * 1024) >= k * 1024) by (nonlinear_arith)
                requires
                    n - p >= 1,
                    k * 1024 >= 16,
            ;
        } else {
            assert(p * k * 1024 - n * k * 1024 == (p - n) * (k * 1024)) by (nonlinear_arith);
            assert((p - n) * (k * 1024) >= k * 1024) by (nonlinear_arith)
                requires
                    p - n >= 1,
                    k * 1024 >= 16,
            ;
        }
    }
    lemma_overwrite_reads_back(image, sp, bn);
    assert(b.skip(sp as int) =~= bn + b.skip((sp + 8) as int));
    lemma_overwrite_reads_back(a, (sn + 8) as nat, bp);
    lemma_page_id_roundtrip(next, b.skip((sp + 8) as int));
    lemma_page_id_roundtrip(previous, b.skip((sn + 16) as int));
}

/// What a file image holds from `pos` on: nothing past its end.
pub open spec fn image_from(image: Seq<u8>, pos: nat) -> Seq<u8> {
    if pos <= image.len() {
        image.skip(pos as int)
    } else {
        Seq::empty()
    }
}

/// How many bytes a read of at most `len` bytes from `pos` gets from a file
/// image: none past its end.
pub open spec fn readable(image: Seq<u8>, pos: nat, len: nat) -> nat {
    if pos >= image.len() {
        0
    } else if pos + len <= image.len() {
        len
    } else {
        (image.len() - pos) as nat
    }
}

/// Copies the bytes of `image` from `pos` on, at most `len` of them.
fn copy_out(image: &[u8], pos: usize, len: usize) -> (r: Vec<u8>)
    requires
        pos + len <= usize::MAX,
    ensures
        r@.len() == readable(image@, pos as nat, len as nat),
        forall|i: int| 0 <= i < r@.len() ==> r@[i] == image@[pos + i],
{
    let n: usize = if pos >= image.len() {
        0
    } else if pos + len <= image.len() {
        len
    } else {
        image.len() - pos
    };
    let mut out: Vec<u8> = Vec::new();
    let mut i: usize = 0;
    while i < n
        invariant
            i <= n,
            n == readable(image@, pos as nat, len as nat),
            n == 0 || pos + n <= image@.len(),
            n <= len,
            pos + len <= usize::MAX,
            out@.len() == i,
            forall|j: int| 0 <= j < i ==> out@[j] == image@[pos + j],
        decreases n - i,
    {
        out.push(image[pos + i]);
        i = i + 1;
    }
    out
}

/// One read from a file image of pages at the reader's position: at most
/// `buf_len` bytes, no further than the end of the page's data or of the
/// image. When that uses up the page's data, the page's header names the
/// page that continues it, and the reader moves there; a header naming page
/// zero leaves it where it is, and one that cannot be read is the error.
pub fn read_step<const K: usize, const B: bool>(
    position: &mut PageReadPosition<K, B>,
    image: &[u8],
    buf_len: usize,
) -> (r: Result<Vec<u8>, DecodeError>)
    requires
        PAGE_HEADER_SIZE < K * 1024,
        old(position).current_page_read_amount <= K * 1024 - PAGE_HEADER_SIZE,
        page_fits(old(position).current_page_id.0 as nat, K as nat),
        <PageId<K> as DeserializeFromMinimal>::deserializable(
            image_from(image@, page_start(old(position).current_page_id.0 as nat, K as nat)),
            (),
        ),
    ensures
        ({
            let page = old(position).current_page_id;
            let amount = old(position).current_page_read_amount;
            let room = K * 1024 - PAGE_HEADER_SIZE - amount;
            let pos = (page_start(page.0 as nat, K as nat) + PAGE_HEADER_SIZE + amount) as nat;
            let len = (if buf_len < room {
                buf_len as int
            } else {
                room
            }) as nat;
            let n = readable(image@, pos, len);
            let header = <PageId<K> as DeserializeFromMinimal>::deserialized(
                image_from(image@, page_start(page.0 as nat, K as nat)),
                (),
            ).0;
            let full = amount + n == K * 1024 - PAGE_HEADER_SIZE;
            &&& r matches Ok(bytes) ==> bytes@.len() == n && forall|i: int| 0 <= i < n ==> bytes@[i] == image@[pos + i]
            &&& !full ==> r is Ok && final(position).current_page_id == page
                && final(position).current_page_read_amount == amount + n
                && final(position).page_ids_acc@ == old(position).page_ids_acc@
            &&& full ==> match header {
                Err(e) => r == Err::<Vec<u8>, DecodeError>(e) && final(position).current_page_id
                    == page,
                Ok(next) => r is Ok && (next.0 == 0 ==> final(position).current_page_id == page
                    && final(position).current_page_read_amount == amount + n) && (next.0 != 0
                    ==> final(position).current_page_id == next
                    && final(position).current_page_read_amount == 0),
            }
        }),
{
    proof {
        lemma_mul_fits(position.current_page_id.0 as nat, K as nat);
        assert(page_start(position.current_page_id.0 as nat + 1, K as nat) == page_start(
            position.current_page_id.0 as nat,
            K as nat,
        ) + K * 1024) by (nonlinear_arith);
    }
    let (pos, len) = position.read_window(buf_len);
    let out = copy_out(image, pos as usize, len);
    let full = position.after_read(out.len());
    if full {
        let start = position.current_page_id.byte_offset() as usize;
        let mut from: &[u8] = if start <= image.len() {
            let (_, rest) = image.split_at(start);
            rest
        } else {
            &[]
        };
        proof {
            assert(from@ =~= image_from(image@, start as nat));
        }
        match PageId::<K>::deserialize_minimal(&mut from, ()) {
            Ok(next) => position.move_to_next(next.as_valid()),
            Err(e) => return Err(e),
        }
    }
    Ok(out)
}

/// What a write lays down in a page, a read at the same place gives back:
/// after `write_step` puts `bytes` at data offset `offset` of `page`, a
/// `read_step` there for as many bytes gets all of them, each as written.
pub proof fn lemma_page_write_reads_back<const K: usize>(
    image: Seq<u8>,
    page: PageId<K>,
    offset: nat,
    bytes: Seq<u8>,
)
    ensures
        ({
            let pos = (page_start(page.0 as nat, K as nat) + PAGE_HEADER_SIZE + offset) as nat;
            let written = overwrite(image, pos, bytes);
            &&& readable(written, pos, bytes.len()) == bytes.len()
            &&& forall|i: int| 0 <= i < bytes.len() ==> written[pos + i] == bytes[i]
        }),
{
}

/// `n` zero bytes.
pub open spec fn zeros(n: nat) -> Seq<u8> {
    Seq::new(n, |i: int| 0u8)
}

/// A file image after page `id` is handed out for the first time: the lowest
/// id never handed out, now one above `id`, is recorded as eight
/// little-endian bytes from byte `PAGE_HEADER_SIZE` on (the data of page
/// zero); the file grows to hold the page; and the page's header is cleared.
pub open spec fn fresh_page_image<const K: usize>(image: Seq<u8>, id: PageId<K>) -> Seq<u8> {
    overwrite(
        overwrite(
            overwrite(image, PAGE_HEADER_SIZE as nat, le_bytes_of((id.0 + 1) as nat, 8)),
            page_start(id.0 as nat + 1, K as nat),
            Seq::empty(),
        ),
        page_start(id.0 as nat, K as nat),
        zeros(PAGE_HEADER_SIZE as nat),
    )
}

/// The eight little-endian bytes of `v`.
fn le_bytes8(v: u64) -> (r: Vec<u8>)
    ensures
        r@ == le_bytes_of(v as nat, 8),
        r@.len() == 8,
{
    let mut out: Vec<u8> = Vec::new();
    let mut x = v;
    let mut i: usize = 0;
    while i < 8
        invariant
            i <= 8,
            out@.len() == i,
            out@ + le_bytes_of(x as nat, (8 - i) as nat) == le_bytes_of(v as nat, 8),
        decreases 8 - i,
    {
        proof {
            assert(le_bytes_of(x as nat, (8 - i) as nat) == seq![(x % 256) as u8] + le_bytes_of(
                (x / 256) as nat,
                (8 - i - 1) as nat,
            ));
            assert(out@.push((x % 256) as u8) + le_bytes_of((x / 256) as nat, (8 - i - 1) as nat)
                =~= out@ + le_bytes_of(x as nat, (8 - i) as nat));
        }
        out.push((x % 256) as u8);
        x = x / 256;
        i = i + 1;
    }
    proof {
        assert(out@ + le_bytes_of(x as nat, 0) =~= out@);
    }
    out
}

impl<const K: usize> PageUse<K> {
    /// Hands out a page in a file image: the last one freed, the image as it
    /// was; else the lowest id never handed out, which moves up by one and is
    /// recorded, the file growing to hold the page and its header cleared.
    pub fn alloc_new_in(&mut self, image: &mut Vec<u8>) -> (r: PageId<K>)
        requires
            PAGE_HEADER_SIZE < K * 1024,
            old(self).freed_pages@.len() == 0 ==> old(self).lowest_unallocated_id < usize::MAX
                && page_fits(old(self).lowest_unallocated_id as nat, K as nat),
        ensures
            old(self).freed_pages@.len() > 0 ==> r == old(self).freed_pages@.last()
                && final(self).freed_pages@ == old(self).freed_pages@.drop_last()
                && final(self).lowest_unallocated_id == old(self).lowest_unallocated_id
                && final(image)@ == old(image)@,
            old(self).freed_pages@.len() == 0 ==> r.0 == old(self).lowest_unallocated_id
                && final(self).lowest_unallocated_id == old(self).lowest_unallocated_id + 1
                && final(self).freed_pages@ == old(self).freed_pages@
                && final(image)@ == fresh_page_image(old(image)@, r),
    {
        let fresh = self.freed_pages.len() == 0;
        let id = self.alloc_new();
        if fresh {
            proof {
                lemma_mul_fits(id.0 as nat, K as nat);
                assert(page_start(id.0 as nat + 1, K as nat) == page_start(id.0 as nat, K as nat)
                    + K * 1024) by (nonlinear_arith);
            }
            let record = le_bytes8((id.0 + 1) as u64);
            write_at(image, PAGE_HEADER_SIZE, record.as_slice());
            let end = id.end_byte_offset() as usize;
            write_at(image, end, &[]);
            let clear: Vec<u8> = vec![0u8; 16];
            proof {
                assert(clear@ =~= zeros(PAGE_HEADER_SIZE as nat));
            }
            write_at(image, id.byte_offset() as usize, clear.as_slice());
        }
        id
    }

    /// Hands out a page as `alloc_new_in` does and links it after `old_page`:
    /// the header of `old_page` names it as the page that continues it, and
    /// its header names `old_page` as the page it continues.
    pub fn alloc_new_after(&mut self, image: &mut Vec<u8>, old_page: PageId<K>) -> (r: PageId<K>)
        requires
            PAGE_HEADER_SIZE < K * 1024,
            page_fits(old_page.0 as nat, K as nat),
            old(self).freed_pages@.len() > 0 ==> page_fits(
                old(self).freed_pages@.last().0 as nat,
                K as nat,
            ),
            old(self).freed_pages@.len() == 0 ==> old(self).lowest_unallocated_id < usize::MAX
                && page_fits(old(self).lowest_unallocated_id as nat, K as nat),
        ensures
            old(self).freed_pages@.len() > 0 ==> r == old(self).freed_pages@.last()
                && final(self).freed_pages@ == old(self).freed_pages@.drop_last()
                && final(self).lowest_unallocated_id == old(self).lowest_unallocated_id
                && final(image)@ == linked(old(image)@, old_page, r),
            old(self).freed_pages@.len() == 0 ==> r.0 == old(self).lowest_unallocated_id
                && final(self).lowest_unallocated_id == old(self).lowest_unallocated_id + 1
                && final(self).freed_pages@ == old(self).freed_pages@
                && final(image)@ == linked(fresh_page_image(old(image)@, r), old_page, r),
    {
        let new_page = self.alloc_new_in(image);
        let mut link: Vec<u8> = Vec::new();
        new_page.minimally_serialize(&mut link, ());
        proof {
            crate::serialize_fast::lemma_be_bytes_len(new_page.0 as nat, 8);
            crate::serialize_fast::lemma_be_bytes_len(old_page.0 as nat, 8);
            assert(link@ =~= be_bytes(new_page.0 as nat, 8));
            lemma_mul_fits(old_page.0 as nat, K as nat);
            lemma_mul_fits(new_page.0 as nat, K as nat);
            assert(page_start(old_page.0 as nat + 1, K as nat) == page_start(old_page.0 as nat, K as nat)
                + K * 1024) by (nonlinear_arith);
            assert(page_start(new_page.0 as nat + 1, K as nat) == page_start(new_page.0 as nat, K as nat)
                + K * 1024) by (nonlinear_arith);
        }
        write_at(image, old_page.byte_offset() as usize, link.as_slice());
        let mut back: Vec<u8> = Vec::new();
        old_page.minimally_serialize(&mut back, ());
        assert(back@ =~= be_bytes(old_page.0 as nat, 8));
        write_at(image, new_page.byte_offset() as usize + 8, back.as_slice());
        new_page
    }

    /// Frees page `free` in a file image: the page it continues, named in its
    /// header, no longer names it as the page that continues it, and its own
    /// header is cleared. The page is not put back for reuse.
    pub fn free_page(&mut self, image: &mut Vec<u8>, free: PageId<K>)
        requires
            PAGE_HEADER_SIZE < K * 1024,
            page_fits(free.0 as nat, K as nat),
            ({
                let at = image_from(old(image)@, page_start(free.0 as nat, K as nat) + 8);
                &&& <PageId<K> as DeserializeFromMinimal>::deserializable(at, ())
                &&& <PageId<K> as DeserializeFromMinimal>::deserialized(at, ()).0 matches Ok(p)
                    && (p.0 != 0 ==> page_fits(p.0 as nat, K as nat))
            }),
        ensures
            *final(self) == *old(self),
            ({
                let at = image_from(old(image)@, page_start(free.0 as nat, K as nat) + 8);
                let prev = <PageId<K> as DeserializeFromMinimal>::deserialized(at, ()).0->Ok_0;
                let unlinked = if prev.0 != 0 {
                    overwrite(old(image)@, page_start(prev.0 as nat, K as nat), zeros(8))
                } else {
                    old(image)@
                };
                final(image)@ == overwrite(
                    unlinked,
                    page_start(free.0 as nat, K as nat),
                    zeros(PAGE_HEADER_SIZE as nat),
                )
            }),
    {
        proof {
            lemma_mul_fits(free.0 as nat, K as nat);
            assert(page_start(free.0 as nat + 1, K as nat) == page_start(free.0 as nat, K as nat)
                + K * 1024) by (nonlinear_arith);
        }
        let start = free.byte_offset() as usize + 8;
        let mut from: &[u8] = if start <= image.len() {
            let (_, rest) = image.split_at(start);
            rest
        } else {
            &[]
        };
        proof {
            assert(from@ =~= image_from(image@, start as nat));
        }
        let previous = PageId::<K>::deserialize_minimal(&mut from, ());
        match previous {
            Ok(prev) => {
                if prev.0 != 0 {
                    proof {
                        lemma_mul_fits(prev.0 as nat, K as nat);
                        assert(page_start(prev.0 as nat + 1, K as nat) == page_start(prev.0 as nat, K as nat)
                            + K * 1024) by (nonlinear_arith);
                    }
                    let clear8: Vec<u8> = vec![0u8; 8];
                    proof {
                        assert(clear8@ =~= zeros(8));
                    }
                    write_at(image, prev.byte_offset() as usize, clear8.as_slice());
                }
            },
            Err(_) => {},
        }
        let clear: Vec<u8> = vec![0u8; 16];
        proof {
            assert(clear@ =~= zeros(PAGE_HEADER_SIZE as nat));
        }
        write_at(image, free.byte_offset() as usize, clear.as_slice());
    }
}

} // verus!
