use tiny_maps::storage::{FlushStep, Storage, JUMBLE_COLLECTOR_MAX_GEN};
use tiny_maps::compression::Compressed;
use tiny_maps::lazy_slot::LazySlot;
use tiny_maps::paged_storage::{
    after_write, condense_step, read_step, settle_component_pages, write_at, write_step, CondenseStep, slice_pop, start_new_page, write_target, write_window,
    PageId, PageReadPosition, PageUse,
    WriteTarget, WriterState,
};
use tiny_maps::serialize_fast::{FastMinSerde, MinimalSerdeFast};
use tiny_maps::serialize_min::{
    read_exact, reading_iterator, DecodeError, DeserializeFromMinimal, ReadExtReadOne,
    SerializeMinimal,
};

#[test]
fn lazy_slot_fill_keeps_the_first_value() {
    let mut slot: LazySlot<u32> = LazySlot::empty();
    assert!(slot.is_empty());
    assert!(!slot.is_safe());
    assert_eq!(slot.fill(5), Some(()));
    assert!(slot.is_filled());
    assert!(slot.is_safe());
    assert_eq!(slot.fill(6), None);
    assert_eq!(slot.as_ref(), Some(&5));
}

#[test]
fn lazy_slot_upgrade_and_free() {
    let mut slot = LazySlot::new(3u8);
    assert_eq!(slot.upgrade(), Some(()));
    assert_eq!(slot.upgrade_safe(), Some(()));
    *slot.safe_ref_mut().unwrap() = 4;
    assert_eq!(slot.as_ref(), Some(&4));
    slot.free();
    assert!(slot.is_empty());
    assert_eq!(slot.upgrade_unsafe(), None);
    assert!(slot.as_mut().is_none());

    let mut loaded = LazySlot::InteriorMutable(Some(Box::new(9u8)));
    assert_eq!(loaded.upgrade(), None);
    assert!(loaded.is_safe());
    assert_eq!(loaded.as_ref(), Some(&9));
}

#[test]
fn page_id_offsets() {
    let id = PageId::<4>::new(3);
    assert_eq!(id.byte_offset(), 3 * 4 * 1024);
    assert_eq!(id.data_byte_offset(), 3 * 4 * 1024 + 16);
    assert_eq!(id.end_byte_offset(), 4 * 4 * 1024);
    assert!(PageId::<4>::new(0).as_valid().is_none());
    assert_eq!(id.as_valid().unwrap().0, 3);
    assert_eq!(PageId::<4>::data_size(), 4096 - 16);
    assert_eq!(PageId::<4>::byte_size(), 4096);
}

#[test]
fn page_id_serializes_as_eight_big_endian_bytes() {
    let id = PageId::<4>::new(0x0102);
    let mut buf = Vec::new();
    id.minimally_serialize(&mut buf, ());
    assert_eq!(buf, vec![0, 0, 0, 0, 0, 0, 1, 2]);
    let mut s = &buf[..];
    let back = PageId::<4>::deserialize_minimal(&mut s, ()).unwrap();
    assert_eq!(back.0, 0x0102);
    assert!(s.is_empty());
}

#[test]
fn slice_pop_takes_the_front() {
    let v = [1u8, 2];
    let mut s: &[u8] = &v;
    assert_eq!(slice_pop(&mut s), Some(&1));
    assert_eq!(slice_pop(&mut s), Some(&2));
    assert_eq!(slice_pop(&mut s), None);
}

#[test]
fn writer_moves_through_pages() {
    let given = [PageId::<4>::new(7)];
    let mut state = WriterState::Begin { to_write: &given };
    match write_target(&mut state) {
        WriteTarget::Page { page, offset } => {
            assert_eq!(page.0, 7);
            assert_eq!(offset, 0);
        }
        _ => panic!("expected a page"),
    }
    let (pos, len) = write_window(PageId::<4>::new(7), 0, 10_000);
    assert_eq!(pos, 7 * 4096 + 16);
    assert_eq!(len, 4096 - 16);
    after_write(&mut state, 100, len);
    match state {
        WriterState::WritingAllocated { written, .. } => assert_eq!(written, 100),
        _ => panic!("expected to stay in the page"),
    }
    after_write(&mut state, len - 100, len - 100);
    match write_target(&mut state) {
        WriteTarget::AllocateAfter { previous } => assert_eq!(previous.0, 7),
        _ => panic!("expected an allocation"),
    }
    start_new_page(&mut state, PageId::new(8));
    let mut s2 = state;
    s2.increase_data_offset(5);
    match s2 {
        WriterState::WritingNew { written, current } => {
            assert_eq!(written, 5);
            assert_eq!(current.0, 8);
        }
        _ => panic!("expected a new page"),
    }
}

#[test]
fn page_use_reuses_freed_pages_first() {
    let mut pages = PageUse::<4> { lowest_unallocated_id: 1, freed_pages: vec![PageId::new(5)] };
    assert_eq!(pages.alloc_new().0, 5);
    assert_eq!(pages.alloc_new().0, 1);
    assert_eq!(pages.alloc_new().0, 2);
    assert!(pages.is_valid(&PageId::new(2)));
    assert!(!pages.is_valid(&PageId::new(3)));
}

#[test]
fn fast_serde_is_big_endian() {
    let mut buf = Vec::new();
    0x0102u16.fast_minimally_serialize(&mut buf, ());
    (-2i16).fast_minimally_serialize(&mut buf, ());
    assert_eq!(buf, vec![1, 2, 0xff, 0xfe]);
    let mut s = &buf[..];
    assert_eq!(u16::fast_deserialize_minimal(&mut s, ()).unwrap(), 0x0102);
    assert_eq!(i16::fast_deserialize_minimal(&mut s, ()).unwrap(), -2);
    assert_eq!(u8::fast_deserialize_minimal(&mut s, ()), Err(DecodeError::UnexpectedEof));
}

#[test]
fn fast_min_serde_wraps_the_fast_encoding() {
    let v = FastMinSerde(0x01020304u32);
    let mut buf = Vec::new();
    v.minimally_serialize(&mut buf, ());
    assert_eq!(buf, vec![1, 2, 3, 4]);
    let back = FastMinSerde::<u32>::deserialize_minimal(&mut &buf[..], ()).unwrap();
    assert_eq!(back.0, 0x01020304);
    let from: FastMinSerde<i64> = FastMinSerde::from(-5i64);
    assert_eq!(from.0, -5);
}

#[test]
fn primitives_serialize_minimally() {
    let mut buf = Vec::new();
    true.minimally_serialize(&mut buf, ());
    ().minimally_serialize(&mut buf, ());
    300u32.minimally_serialize(&mut buf, ());
    // zero is the byte 0x80 alone, which reads back as zero at the end
    false.minimally_serialize(&mut buf, ());
    assert_eq!(buf, vec![0x01, 0x82, 0x2c, 0x80]);
    let mut s = &buf[..];
    assert_eq!(bool::deserialize_minimal(&mut s, ()), Ok(true));
    assert_eq!(<()>::deserialize_minimal(&mut s, ()), Ok(()));
    assert_eq!(u32::deserialize_minimal(&mut s, ()), Ok(300));
    assert_eq!(bool::deserialize_minimal(&mut s, ()), Ok(false));
    assert_eq!(u32::read_past(&mut s, ()), Err(DecodeError::UnexpectedEof));
}

#[test]
fn reading_one_byte_at_a_time() {
    let v = [4u8, 5];
    let mut s: &[u8] = &v;
    assert_eq!(s.read_one(), Ok(4));
    let mut it = reading_iterator(&mut s);
    assert_eq!(it.next(), Some(Ok(5)));
    assert_eq!(it.next(), None);
    let mut t: &[u8] = &[1, 2, 3];
    assert_eq!(read_exact(&mut t, 2).unwrap(), &[1, 2]);
    assert!(read_exact(&mut t, 2).is_err());
}

#[test]
fn compressed_values_read_back() {
    let value = Compressed(123456u64);
    let mut buf = Vec::new();
    assert!(value.minimally_serialize(&mut buf, ()).is_some());
    // a zstd frame starts with its magic number
    assert_eq!(buf[..4].to_vec(), vec![0x28, 0xb5, 0x2f, 0xfd]);
    let mut s = &buf[..];
    let back = Compressed::<u64>::deserialize_minimal(&mut s, ()).unwrap();
    assert_eq!(back.0, 123456);
    assert!(s.is_empty());
    let mut junk: &[u8] = &[1, 2, 3];
    assert!(Compressed::<u64>::deserialize_minimal(&mut junk, ()).is_err());
    let mut again = &buf[..];
    assert_eq!(Compressed::<u64>::read_past(&mut again, ()), Ok(()));
    assert!(again.is_empty());
    let mut junk: &[u8] = &[1, 2, 3];
    assert_eq!(Compressed::<u64>::read_past(&mut junk, ()), Err(DecodeError::InvalidData));
    assert!(junk.is_empty());
}

#[test]
fn stored_values_are_written_when_changed() {
    let mut s = Storage::new(5u32);
    assert!(!s.is_dirty());
    assert_eq!(s.flush(), FlushStep::Clean);
    assert_eq!(s.deref(), Some(&5));
    *s.ref_mut() = 6;
    assert!(s.is_dirty());
    assert_eq!(s.flush(), FlushStep::Write);
    s.mark_as_clean();
    assert_eq!(s.flush_without_children(), FlushStep::Clean);
    assert_eq!(s.deref(), Some(&6));
}

#[test]
fn unchanged_values_are_dropped_after_eight_flushes() {
    let mut s = Storage::new(1u8);
    for _ in 0..JUMBLE_COLLECTOR_MAX_GEN - 1 {
        assert_eq!(s.flush(), FlushStep::Clean);
        assert!(s.deref().is_some());
    }
    assert_eq!(s.flush(), FlushStep::Clean);
    assert!(s.deref().is_none());
    assert_eq!(s.jumble_collector_generation(), 8);
}

#[test]
fn opened_values_load_on_demand() {
    let mut s: Storage<u8> = Storage::open();
    assert!(s.is_dirty());
    assert!(s.deref().is_none());
    assert_eq!(s.flush(), FlushStep::NothingLoaded);
    s.ensure_filled(3);
    s.ensure_filled(4);
    assert_eq!(s.deref(), Some(&3));
    assert_eq!(s.flush(), FlushStep::Write);
}

#[test]
fn written_values_settle_their_pages() {
    let given = [PageId::<4>::new(3), PageId::<4>::new(4)];
    let mut components = vec![PageId::<4>::new(1), PageId::new(3), PageId::new(4)];
    // the writer stopped before the last two pages: they are freed
    let state = WriterState::Begin { to_write: &given };
    let freed = settle_component_pages(&mut components, &vec![], &state);
    assert_eq!(freed.iter().map(|p| p.0).collect::<Vec<_>>(), vec![3, 4]);
    assert_eq!(components.iter().map(|p| p.0).collect::<Vec<_>>(), vec![1]);
    // a writer that needed more pages adds the ones it allocated
    let state = WriterState::NeedsNewAllocation { previous: PageId::<4>::new(9) };
    let freed = settle_component_pages(&mut components, &vec![PageId::new(9)], &state);
    assert!(freed.is_empty());
    assert_eq!(components.iter().map(|p| p.0).collect::<Vec<_>>(), vec![1, 9]);
}

#[test]
fn values_move_only_to_lower_pages() {
    assert!(matches!(condense_step(true, PageId::<4>::new(9), PageId::new(2)), CondenseStep::InUse));
    assert!(matches!(
        condense_step(false, PageId::<4>::new(9), PageId::new(12)),
        CondenseStep::Stay { release } if release.0 == 12
    ));
    assert!(matches!(
        condense_step(false, PageId::<4>::new(9), PageId::new(2)),
        CondenseStep::MoveTo { page } if page.0 == 2
    ));
}

#[test]
fn blank_files_start_at_page_one() {
    assert_eq!(PageUse::<4>::open(0, 77).lowest_unallocated_id, 1);
    let pages = PageUse::<4>::open(8192, 5);
    assert_eq!(pages.lowest_unallocated_id, 5);
    assert!(pages.freed_pages.is_empty());
}

#[test]
fn bytes_are_written_into_the_image_growing_it() {
    let mut image = vec![5u8, 5];
    write_at(&mut image, 4, &[1, 2]);
    assert_eq!(image, vec![5, 5, 0, 0, 1, 2]);
    write_at(&mut image, 1, &[9]);
    assert_eq!(image, vec![5, 9, 0, 0, 1, 2]);
}

#[test]
fn values_are_written_across_linked_pages() {
    let given = [PageId::<1>(1)];
    let mut state = WriterState::Begin { to_write: &given[..] };
    let mut pages = PageUse::<1> { lowest_unallocated_id: 2, freed_pages: Vec::new() };
    let mut added: Vec<PageId<1>> = Vec::new();
    let mut image: Vec<u8> = Vec::new();

    assert_eq!(write_step(&mut state, &mut pages, &mut added, &mut image, &[1, 2, 3]), 3);
    assert_eq!(image.len(), 1024 + 16 + 3);
    assert_eq!(image[1040..1043].to_vec(), vec![1, 2, 3]);
    assert!(image[..1040].iter().all(|b| *b == 0));
    assert!(matches!(state, WriterState::WritingAllocated { written: 3, .. }));

    let big = vec![7u8; 2000];
    assert_eq!(write_step(&mut state, &mut pages, &mut added, &mut image, &big), 1005);
    assert_eq!(image.len(), 2048);
    assert!(matches!(state, WriterState::NeedsNewAllocation { previous: PageId(1) }));

    assert_eq!(write_step(&mut state, &mut pages, &mut added, &mut image, &[9]), 1);
    assert_eq!(added.iter().map(|p| p.0).collect::<Vec<_>>(), vec![2]);
    assert_eq!(pages.lowest_unallocated_id, 3);
    assert_eq!(image[1024..1032].to_vec(), vec![0, 0, 0, 0, 0, 0, 0, 2]);
    assert_eq!(image[2056..2064].to_vec(), vec![0, 0, 0, 0, 0, 0, 0, 1]);
    assert_eq!(image[2064], 9);
    assert_eq!(image.len(), 3072);
    assert_eq!(image[16..24].to_vec(), vec![3, 0, 0, 0, 0, 0, 0, 0]);
    assert!(image[2048..2056].iter().all(|b| *b == 0));
    assert!(matches!(state, WriterState::WritingNew { written: 1, current: PageId(2) }));

    let mut reader = PageReadPosition::<1, true> {
        page_ids_acc: vec![PageId(1)],
        current_page_id: PageId(1),
        current_page_read_amount: 0,
    };
    assert_eq!(read_step(&mut reader, &image, 3).unwrap(), vec![1, 2, 3]);
    assert_eq!(reader.current_page_read_amount, 3);
    assert_eq!(read_step(&mut reader, &image, 5000).unwrap(), vec![7u8; 1005]);
    assert_eq!(reader.current_page_id.0, 2);
    assert_eq!(reader.current_page_read_amount, 0);
    assert_eq!(reader.page_ids_acc.iter().map(|p| p.0).collect::<Vec<_>>(), vec![1, 2]);
    // the file grew to hold the whole new page, so the rest of it reads as zeros
    assert_eq!(read_step(&mut reader, &image, 10).unwrap(), vec![9, 0, 0, 0, 0, 0, 0, 0, 0, 0]);
    assert_eq!(reader.current_page_read_amount, 10);

    pages.free_page(&mut image, PageId(2));
    assert!(image[1024..1032].iter().all(|b| *b == 0));
    assert!(image[2048..2064].iter().all(|b| *b == 0));
    assert_eq!(image[2064], 9);
    assert!(pages.freed_pages.is_empty());
}

#[test]
fn freed_pages_are_handed_out_first() {
    let mut pages = PageUse::<1> { lowest_unallocated_id: 5, freed_pages: vec![PageId(3)] };
    let mut image = vec![1u8; 10];
    assert_eq!(pages.alloc_new_in(&mut image).0, 3);
    assert_eq!(image, vec![1u8; 10]);
    assert_eq!(pages.alloc_new_in(&mut image).0, 5);
    assert_eq!(pages.lowest_unallocated_id, 6);
    assert_eq!(image.len(), 6 * 1024);
    assert_eq!(image[16..24].to_vec(), vec![6, 0, 0, 0, 0, 0, 0, 0]);
    assert_eq!(image[..10].to_vec(), vec![1u8; 10]);
}
