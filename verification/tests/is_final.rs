use tiny_maps::compressor::is_final::{map_until_finished, Finished};
use tiny_maps::compressor::is_final::try_flatten;
use tiny_maps::compressor::is_final::{IterChunksPadded, IterIsFinal};

#[test]
fn chunks_padded() {
    let values = vec![1, 2, 3, 4, 5, 6, 7];

    let mut chunks = values.chunks_padded(3);

    assert_eq!(chunks.next().unwrap().iter(), &[1, 2, 3][..]);

    assert_eq!(chunks.next().unwrap().iter(), &[4, 5, 6][..]);

    assert_eq!(chunks.next().unwrap().iter(), &[7, 0, 0][..]);

    assert!(chunks.next().is_none());
}

#[test]
fn padded_chunk_compares_with_slices() {
    let values = vec![9u8, 8];
    let mut chunks = values.chunks_padded(3);
    let c = chunks.next().unwrap();
    assert_eq!(c.len(), 3);
    assert!(c.eq_slice(&[9, 8, 0]));
    assert!(!c.eq_slice(&[9, 8]));
    assert_eq!(*c.index(7), 0);
}

#[test]
fn is_final_marks_the_last_item() {
    let v = [5u8, 6, 7];
    let mut it = v.is_final();
    assert_eq!(it.next(), Some((false, 5)));
    assert_eq!(it.next(), Some((false, 6)));
    assert_eq!(it.next(), Some((true, 7)));
    assert_eq!(it.next(), None);
}

#[test]
fn pair_chunk_drops_an_odd_item() {
    let v = [1u8, 2, 3];
    let mut it = v.pair_chunk();
    assert_eq!(it.next(), Some((1, 2)));
    assert_eq!(it.next(), None);
}

#[test]
fn try_flatten_passes_errors_through() {
    let items: Vec<Result<Vec<u8>, u8>> = vec![Ok(vec![1, 2]), Err(9), Ok(vec![]), Ok(vec![3])];
    let mut it = try_flatten(&items);
    assert_eq!(it.next(), Some(Ok(1)));
    assert_eq!(it.next(), Some(Ok(2)));
    assert_eq!(it.next(), Some(Err(9)));
    assert_eq!(it.next(), Some(Ok(3)));
    assert_eq!(it.next(), None);
}

#[test]
fn map_until_stops_after_final() {
    let v = [1u8, 2, 3, 4];
    let mut it = map_until_finished(&v, |x: u8| if x == 2 { Finished::Final(x * 10) } else { Finished::NonFinal(x * 10) });
    assert_eq!(it.next(), Some(10));
    assert_eq!(it.next(), Some(20));
    assert_eq!(it.next(), None);
}
