use johansen_null_eigenspectra::matrix_utils::CumsumOrder;
use johansen_null_eigenspectra::rng_matrix::{
    chunk_layout, derive_chunk_seeds, matrix_len, plan_chunks, plan_normal_matrix,
    TimeAxisDirection, MIN_CHUNK,
};

#[test]
fn test_to_cumsum_order() {
    assert_eq!(TimeAxisDirection::AlongColumns.to_cumsum_order(), CumsumOrder::RowWise);
    assert_eq!(TimeAxisDirection::AlongRows.to_cumsum_order(), CumsumOrder::ColumnWise);
}

#[test]
fn test_matrix_len() {
    assert_eq!(matrix_len(3, 4), Some(12));
    assert_eq!(matrix_len(0, 4), Some(0));
    assert_eq!(matrix_len(usize::MAX, 0), Some(0));
    assert_eq!(matrix_len(usize::MAX, 1), Some(usize::MAX));
    assert_eq!(matrix_len(usize::MAX, 2), None);
    assert_eq!(matrix_len(1 << (usize::BITS / 2), 1 << (usize::BITS / 2)), None);
}

#[test]
fn test_chunk_layout() {
    assert_eq!(MIN_CHUNK, 10_000);
    // fewer entries than cores: a chunk per entry
    assert_eq!(chunk_layout(3, 8), (3, 1));
    // a chunk per core
    assert_eq!(chunk_layout(100, 8), (8, 13));
    assert_eq!(chunk_layout(79_999, 8), (8, 10_000));
    // a chunk per ten thousand entries
    assert_eq!(chunk_layout(100_000, 8), (10, 10_000));
    assert_eq!(chunk_layout(100_001, 8), (10, 10_001));
    assert_eq!(chunk_layout(1, 1), (1, 1));
    assert_eq!(chunk_layout(usize::MAX, 1), (usize::MAX / 10_000, 10_001));

    for total in [1usize, 7, 8, 9, 64, 1000, 123_456] {
        for cores in [1usize, 2, 8, 64] {
            let (count, size) = chunk_layout(total, cores);
            assert!(count >= 1 && size >= 1);
            assert!(count * size >= total);
            // chunks of that size are no more than seeds
            assert!((total + size - 1) / size <= count);
        }
    }
}

#[test]
fn test_derive_chunk_seeds() {
    assert!(derive_chunk_seeds(42, 0).is_empty());
    let seeds = derive_chunk_seeds(42, 16);
    assert_eq!(seeds.len(), 16);
    // the same seed gives the same seeds, and a longer list starts alike
    assert_eq!(derive_chunk_seeds(42, 16), seeds);
    assert_eq!(derive_chunk_seeds(42, 4), seeds[..4].to_vec());
    // the seeds are drawn, not handed through
    assert!(seeds.iter().all(|seed| *seed != 42));
    let mut distinct = seeds.clone();
    distinct.sort();
    distinct.dedup();
    assert_eq!(distinct.len(), 16);
    assert_ne!(derive_chunk_seeds(43, 16), seeds);
}

#[test]
fn test_plan_normal_matrix() {
    assert!(plan_normal_matrix(0, 5, 1).is_none());
    assert!(plan_normal_matrix(usize::MAX, 2, 1).is_none());
    let plan = plan_normal_matrix(30, 1000, 7).expect("a matrix with entries has a plan");
    assert_eq!(plan.total, 30_000);
    assert!(!plan.seeds.is_empty());
    assert!(plan.seeds.len() * plan.chunk_size >= plan.total);
    assert_eq!(plan.chunk_size, (plan.total - 1) / plan.seeds.len() + 1);
    assert_eq!(plan.seeds, derive_chunk_seeds(7, plan.seeds.len()));
}

#[test]
fn test_plan_chunks() {
    // no plan without an entry, with too many entries, or without a core
    assert!(plan_chunks(0, 5, 1, 8).is_none());
    assert!(plan_chunks(5, 0, 1, 8).is_none());
    assert!(plan_chunks(usize::MAX, 2, 1, 8).is_none());
    assert!(plan_chunks(3, 4, 1, 0).is_none());

    let plan = plan_chunks(3, 4, 1, 8).expect("twelve entries on eight cores have a plan");
    assert_eq!(plan.total, 12);
    assert_eq!(plan.seeds.len(), 8);
    assert_eq!(plan.chunk_size, 2);
    assert_eq!(plan.seeds, derive_chunk_seeds(1, 8));

    // fewer entries than cores: a chunk for each entry
    let plan = plan_chunks(1, 3, 7, 8).unwrap();
    assert_eq!((plan.total, plan.seeds.len(), plan.chunk_size), (3, 3, 1));
    // a chunk for every ten thousand entries
    let plan = plan_chunks(300, 1000, 7, 8).unwrap();
    assert_eq!((plan.total, plan.seeds.len(), plan.chunk_size), (300_000, 30, 10_000));
    let plan = plan_chunks(1, 100_001, 7, 1).unwrap();
    assert_eq!((plan.total, plan.seeds.len(), plan.chunk_size), (100_001, 10, 10_001));

    // the plan of this machine is the plan for its cores
    let here = plan_normal_matrix(30, 1000, 7).expect("a matrix with entries has a plan");
    let cores = (1..=30_000usize)
        .find(|cores| plan_chunks(30, 1000, 7, *cores).unwrap().seeds.len() == here.seeds.len())
        .expect("some number of cores gives this plan");
    let same = plan_chunks(30, 1000, 7, cores).unwrap();
    assert_eq!((same.total, same.chunk_size, same.seeds), (here.total, here.chunk_size, here.seeds));
}
