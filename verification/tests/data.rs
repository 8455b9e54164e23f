use crabformer::data::{
    count_total_batches, count_total_tokens, DataLoader, RingShuffler, StreamAnswers, TokenSource,
};
use crabformer::errors::DataError;
use rand::rngs::StdRng;
use rand::SeedableRng;

struct VecSource {
    tokens: Vec<u32>,
    next: usize,
    fail_at: Option<usize>,
}

impl VecSource {
    fn new(tokens: Vec<u32>) -> Self {
        VecSource { tokens, next: 0, fail_at: None }
    }
}

impl TokenSource for VecSource {
    fn given(&self) -> StreamAnswers {
        unreachable!("the history of answers exists for proofs only")
    }

    fn pull(&mut self) -> Option<Result<u32, DataError>> {
        if self.fail_at == Some(self.next) {
            self.next += 1;
            return Some(Err(DataError::Io("broken".to_string())));
        }
        let r = self.tokens.get(self.next).copied();
        self.next += 1;
        r.map(Ok)
    }
}

#[test]
fn total_batches_counts_advances_after_warmup() {
    assert_eq!(count_total_batches(100, 2, 32), 34);
    assert_eq!(count_total_batches(10, 2, 32), 0);
    assert_eq!(count_total_batches(33, 2, 32), 0);
    assert_eq!(count_total_batches(35, 2, 32), 1);
}

#[test]
fn total_tokens_sums_file_lengths() {
    assert_eq!(count_total_tokens(&[3, 4, 0]), 7);
    assert_eq!(count_total_tokens(&[]), 0);
}

#[test]
fn warmup_fills_ring_in_order() {
    let mut s = RingShuffler::new(VecSource::new((0..10).collect()), 4, 2, 1, 100);
    assert!(s.warmup().is_ok());
    let b = s.batch_from_starts(&vec![0, 1]);
    assert_eq!(b.x, vec![vec![0, 1], vec![1, 2]]);
    assert_eq!(b.y, vec![vec![1, 2], vec![2, 3]]);
}

#[test]
fn next_batch_before_warmup_is_an_error() {
    let mut s = RingShuffler::new(VecSource::new((0..10).collect()), 4, 2, 1, 100);
    let mut rng = StdRng::seed_from_u64(1);
    match s.next_batch(1, &mut rng) {
        Err(DataError::Io(m)) => assert_eq!(m, "call warmup() before next_batch"),
        _ => panic!("expected an error"),
    }
}

#[test]
fn ring_advances_after_each_batch() {
    let mut s = RingShuffler::new(VecSource::new((0..10).collect()), 4, 2, 1, 100);
    s.warmup().unwrap();
    let mut rng = StdRng::seed_from_u64(1);
    let b = s.next_batch(3, &mut rng).unwrap().unwrap();
    assert_eq!(b.x.len(), 3);
    for (x, y) in b.x.iter().zip(b.y.iter()) {
        assert!(x[0] <= 1);
        assert_eq!(x[1], x[0] + 1);
        assert_eq!(y, &vec![x[0] + 1, x[0] + 2]);
    }
    let after = s.batch_from_starts(&vec![0, 1]);
    assert_eq!(after.x, vec![vec![1, 2], vec![2, 3]]);
    assert_eq!(after.y, vec![vec![2, 3], vec![3, 4]]);
}

#[test]
fn warmup_on_short_stream_fails() {
    let mut s = RingShuffler::new(VecSource::new(vec![1, 2]), 4, 2, 1, 100);
    match s.warmup() {
        Err(DataError::Io(m)) => assert_eq!(m, "unexpected EOF during warmup"),
        _ => panic!("expected an error"),
    }
}

#[test]
fn stream_errors_pass_through() {
    let mut src = VecSource::new((0..10).collect());
    src.fail_at = Some(5);
    let mut s = RingShuffler::new(src, 4, 2, 2, 100);
    s.warmup().unwrap();
    let mut rng = StdRng::seed_from_u64(1);
    match s.next_batch(1, &mut rng) {
        Err(DataError::Io(m)) => assert_eq!(m, "broken"),
        _ => panic!("expected the stream's error"),
    }
}

#[test]
fn loader_gives_total_batches_then_none() {
    let tokens: Vec<u32> = (0..100).collect();
    let mut rng = StdRng::seed_from_u64(42);
    let mut loader = DataLoader::new(VecSource::new(tokens.clone()), 100, 2, 1).unwrap();
    assert_eq!(loader.total_batches(), 34);
    let mut n = 0;
    let mut starts = Vec::new();
    while let Some(b) = loader.next_batch(&mut rng).unwrap() {
        assert_eq!(b.x.len(), 1);
        assert_eq!(b.x[0].len(), 2);
        assert_eq!(b.y[0][0], b.x[0][1]);
        assert_eq!(b.x[0][1], b.x[0][0] + 1);
        // the ring holds the 32 most recent tokens
        let newest = 31 + 2 * n;
        assert!(b.x[0][0] + 31 >= newest && b.y[0][1] <= newest);
        starts.push(b.x[0][0] + 31 - newest);
        n += 1;
    }
    assert_eq!(n, 34);
    assert!(loader.next_batch(&mut rng).unwrap().is_none());
    // the draws are not all the same place of the ring
    assert!(starts.iter().any(|&s| s != starts[0]));
    assert!(loader.reset(VecSource::new(tokens), 100).is_ok());
    assert!(loader.next_batch(&mut rng).unwrap().is_some());
}

#[test]
fn loader_on_short_data_fails() {
    assert!(DataLoader::new(VecSource::new((0..10).collect()), 10, 2, 1).is_err());
}

#[test]
fn loader_budget_stops_reading() {
    let mut rng = StdRng::seed_from_u64(42);
    let mut loader = DataLoader::new(VecSource::new((0..100).collect()), 36, 2, 1).unwrap();
    assert_eq!(loader.total_batches(), 2);
    assert!(loader.next_batch(&mut rng).unwrap().is_some());
    assert!(loader.next_batch(&mut rng).unwrap().is_some());
    assert!(loader.next_batch(&mut rng).unwrap().is_none());
}

#[test]
fn ring_takes_the_token_the_stream_gives() {
    let mut s = RingShuffler::new(VecSource::new(vec![10, 20, 30, 40, 50]), 4, 1, 1, 100);
    s.warmup().unwrap();
    let mut rng = StdRng::seed_from_u64(3);
    assert!(s.next_batch(1, &mut rng).unwrap().is_some());
    let b = s.batch_from_starts(&vec![0, 1, 2]);
    assert_eq!(b.x, vec![vec![20], vec![30], vec![40]]);
    assert_eq!(b.y, vec![vec![30], vec![40], vec![50]]);
}

#[test]
fn end_of_stream_exhausts_the_ring() {
    let mut s = RingShuffler::new(VecSource::new((0..6).collect()), 4, 1, 3, 100);
    s.warmup().unwrap();
    let mut rng = StdRng::seed_from_u64(3);
    // two fresh tokens, then the end of the stream: the batch still comes
    assert!(s.next_batch(2, &mut rng).unwrap().is_some());
    let b = s.batch_from_starts(&vec![0]);
    assert_eq!(b.x, vec![vec![2]]);
    assert!(s.next_batch(2, &mut rng).unwrap().is_none());
}
