use candle_core::{DType, Device, Tensor};
use oxide_rs::inference::paged_cache::{
    CacheError, PagedAttentionConfig, PagedKvCache, DEFAULT_PAGE_SIZE,
};

const HEADS: usize = 2;
const DIM: usize = 3;

fn step(positions: usize, start: f32) -> Tensor {
    let count = HEADS * positions * DIM;
    let values: Vec<f32> = (0..count).map(|i| start + i as f32).collect();
    Tensor::from_vec(values, (1, HEADS, positions, DIM), &Device::Cpu).unwrap()
}

fn numbers(t: &Tensor) -> Vec<f32> {
    t.flatten_all().unwrap().to_vec1::<f32>().unwrap()
}

#[test]
fn test_paged_cache_creation() {
    let cache = PagedKvCache::new(32, 128, 4096);
    assert_eq!(cache.page_size(), DEFAULT_PAGE_SIZE);
    assert_eq!(cache.max_seq_len(), 4096);
    assert_eq!(cache.num_pages(), 256);
    assert_eq!(cache.current_seq_len(), 0);
}

#[test]
fn test_paged_cache_reset() {
    let mut cache = PagedKvCache::new(8, 64, 256);
    assert_eq!(cache.current_seq_len(), 0);

    cache.reset();
    assert_eq!(cache.current_seq_len(), 0);
}

#[test]
fn room_is_rounded_up_to_whole_pages() {
    assert_eq!(PagedKvCache::new(1, 1, 0).num_pages(), 0);
    assert_eq!(PagedKvCache::new(1, 1, 1).num_pages(), 1);
    assert_eq!(PagedKvCache::new(1, 1, 16).num_pages(), 1);
    assert_eq!(PagedKvCache::new(1, 1, 17).num_pages(), 2);
    assert_eq!(PagedKvCache::new(1, 1, 100).max_seq_len(), 112);
    assert_eq!(PagedKvCache::new(1, 1, 100).allocated_pages(), 0);
}

#[test]
fn appends_add_up_and_fill_whole_pages_first() {
    let mut cache = PagedKvCache::new(HEADS, DIM, 100);
    let mut total = 0;
    for positions in [5usize, 20, 7, 16, 1, 15] {
        let k = step(positions, 0.0);
        let v = step(positions, 1000.0);
        cache.append(&k, &v).unwrap();
        total += positions;
        assert_eq!(cache.current_seq_len(), total);
        assert_eq!(cache.allocated_pages(), (total + 15) / 16);
        for page in 0..cache.num_pages() {
            let expected = if total <= page * 16 { 0 } else { (total - page * 16).min(16) };
            assert_eq!(cache.page_used(page), expected);
            assert_eq!(cache.get_page(page).is_some(), page * 16 < total);
        }
    }
    assert_eq!(total, 64);
    assert_eq!(cache.allocated_pages(), 4);
}

#[test]
fn what_is_appended_is_what_is_stored() {
    let mut cache = PagedKvCache::new(HEADS, DIM, 64);
    let k1 = step(5, 0.0);
    let v1 = step(5, 500.0);
    let k2 = step(20, 100.0);
    let v2 = step(20, 700.0);
    let (stored_k, stored_v) = cache.append(&k1, &v1).unwrap();
    assert_eq!(numbers(&stored_k), numbers(&k1));
    assert_eq!(numbers(&stored_v), numbers(&v1));
    let (stored_k, stored_v) = cache.append(&k2, &v2).unwrap();
    assert_eq!(stored_k.dims(), &[1, HEADS, 20, DIM]);
    assert_eq!(numbers(&stored_k), numbers(&k2));
    assert_eq!(numbers(&stored_v), numbers(&v2));
    let (all_k, all_v) = cache.get_cache_tensor().unwrap().unwrap();
    assert_eq!(all_k.dims(), &[1, HEADS, 25, DIM]);
    assert_eq!(numbers(&all_k), numbers(&Tensor::cat(&[&k1, &k2], 2).unwrap()));
    assert_eq!(numbers(&all_v), numbers(&Tensor::cat(&[&v1, &v2], 2).unwrap()));
}

#[test]
fn a_full_cache_takes_no_more() {
    let mut cache = PagedKvCache::new(HEADS, DIM, 32);
    cache.append(&step(30, 0.0), &step(30, 0.0)).unwrap();
    match cache.append(&step(3, 0.0), &step(3, 0.0)) {
        Err(CacheError::Full) => {}
        _ => panic!("expected the cache to be full"),
    }
    assert_eq!(cache.current_seq_len(), 30);
    assert_eq!(cache.allocated_pages(), 2);
    assert_eq!(cache.page_used(1), 14);
    cache.append(&step(2, 0.0), &step(2, 0.0)).unwrap();
    assert_eq!(cache.current_seq_len(), 32);
    assert!(matches!(cache.append(&step(1, 0.0), &step(1, 0.0)), Err(CacheError::Full)));
}

#[test]
fn keys_and_values_of_another_shape_are_refused() {
    let mut cache = PagedKvCache::new(HEADS, DIM, 32);
    let wrong = Tensor::zeros((1, HEADS + 1, 4, DIM), DType::F32, &Device::Cpu).unwrap();
    assert!(matches!(cache.append(&wrong, &wrong), Err(CacheError::Backend(_))));
    assert_eq!(cache.current_seq_len(), 0);
    assert_eq!(cache.page_used(0), 0);
    assert_eq!(cache.allocated_pages(), 1);
    assert_eq!(numbers(&cache.get_page(0).unwrap().k), vec![0.0; HEADS * 16 * DIM]);
    assert!(cache.get_page(1).is_none());
    assert!(matches!(cache.get_cache_tensor(), Ok(None)));
}

#[test]
fn a_tensor_without_position_axis_counts_as_one_position() {
    let mut cache = PagedKvCache::new(HEADS, DIM, 32);
    let flat = Tensor::zeros((HEADS, DIM), DType::F32, &Device::Cpu).unwrap();
    assert!(matches!(cache.append(&flat, &flat), Err(CacheError::Backend(_))));
    assert_eq!(cache.current_seq_len(), 0);
}

#[test]
fn reset_drops_every_page() {
    let mut cache = PagedKvCache::new(HEADS, DIM, 64);
    cache.append(&step(40, 0.0), &step(40, 0.0)).unwrap();
    assert_eq!(cache.allocated_pages(), 3);
    cache.reset();
    assert_eq!(cache.current_seq_len(), 0);
    assert_eq!(cache.allocated_pages(), 0);
    assert_eq!(cache.page_used(0), 0);
    assert!(cache.get_cache_tensor().unwrap().is_none());
    assert_eq!(cache.max_seq_len(), 64);
    cache.append(&step(3, 0.0), &step(3, 0.0)).unwrap();
    assert_eq!(cache.allocated_pages(), 1);
}

#[test]
fn pages_are_allocated_once() {
    let mut cache = PagedKvCache::new(HEADS, DIM, 64);
    cache.allocate_page(2).unwrap();
    assert_eq!(cache.allocated_pages(), 1);
    assert!(cache.get_page(2).is_some());
    assert!(cache.get_page(0).is_none());
    assert_eq!(cache.get_page(2).unwrap().k.dims(), &[1, HEADS, 16, DIM]);
    assert_eq!(numbers(&cache.get_page(2).unwrap().v), vec![0.0; HEADS * 16 * DIM]);
    cache.allocate_page(2).unwrap();
    assert_eq!(cache.allocated_pages(), 1);
    cache.allocate_page(4).unwrap();
    cache.allocate_page(400).unwrap();
    assert_eq!(cache.allocated_pages(), 1);
    assert!(cache.get_page(4).is_none());
    assert_eq!(cache.current_seq_len(), 0);
}

#[test]
fn a_page_is_written_from_an_offset() {
    let mut cache = PagedKvCache::new(HEADS, DIM, 64);
    let k = step(4, 1.0);
    let v = step(4, 50.0);
    cache.write_to_page(1, 10, &k, &v).unwrap();
    assert_eq!(cache.page_used(1), 14);
    assert_eq!(cache.allocated_pages(), 1);
    let page = cache.get_page(1).unwrap();
    assert_eq!(numbers(&page.k.narrow(2, 10, 4).unwrap()), numbers(&k));
    assert_eq!(numbers(&page.v.narrow(2, 10, 4).unwrap()), numbers(&v));
    assert_eq!(numbers(&page.k.narrow(2, 0, 10).unwrap()), vec![0.0; HEADS * 10 * DIM]);

    cache.write_to_page(1, 14, &k, &v).unwrap();
    assert_eq!(cache.page_used(1), 16);
    let page = cache.get_page(1).unwrap();
    assert_eq!(
        numbers(&page.k.narrow(2, 14, 2).unwrap()),
        numbers(&k.narrow(2, 0, 2).unwrap())
    );

    cache.write_to_page(1, 16, &k, &v).unwrap();
    cache.write_to_page(9, 0, &k, &v).unwrap();
    assert_eq!(cache.page_used(1), 16);
    assert_eq!(cache.allocated_pages(), 1);
    assert_eq!(cache.current_seq_len(), 0);
}

#[test]
fn the_default_configuration_is_the_usual_one() {
    let config = PagedAttentionConfig::default();
    assert_eq!(config.page_size, 16);
    assert_eq!(config.max_seq_len, 4096);
    assert_eq!(config.num_heads, 32);
    assert_eq!(config.head_dim, 128);
}

#[test]
fn a_span_that_does_not_fit_a_page_is_refused() {
    let mut cache = PagedKvCache::new(HEADS, DIM, 64);
    let narrow = Tensor::zeros((1, HEADS, 4, DIM + 1), DType::F32, &Device::Cpu).unwrap();
    assert!(matches!(cache.write_to_page(0, 0, &narrow, &narrow), Err(CacheError::Backend(_))));
    assert_eq!(cache.page_used(0), 0);
    let page = cache.get_page(0).unwrap();
    assert_eq!(page.k.dims(), &[1, HEADS, 16, DIM]);
    assert_eq!(page.v.dims(), &[1, HEADS, 16, DIM]);
}

#[test]
fn an_empty_cache_has_no_tensor() {
    let mut cache = PagedKvCache::new(HEADS, DIM, 64);
    assert!(matches!(cache.get_cache_tensor(), Ok(None)));
    cache.append(&step(20, 1.0), &step(20, 2.0)).unwrap();
    assert!(matches!(cache.get_cache_tensor(), Ok(Some(_))));
    cache.reset();
    assert!(matches!(cache.get_cache_tensor(), Ok(None)));
    assert_eq!(cache.current_seq_len(), 0);
    assert_eq!(cache.max_seq_len(), 64);
    assert_eq!(cache.num_pages(), 4);
    assert_eq!(cache.page_size(), 16);
    for i in 0..4 {
        assert!(cache.get_page(i).is_none());
    }
}

#[test]
fn allocating_a_page_again_leaves_what_it_holds() {
    let mut cache = PagedKvCache::new(HEADS, DIM, 64);
    let k = step(5, 1.0);
    let v = step(5, 100.0);
    cache.write_to_page(2, 0, &k, &v).unwrap();
    cache.allocate_page(2).unwrap();
    cache.allocate_page(0).unwrap();
    let page = cache.get_page(2).unwrap();
    assert_eq!(numbers(&page.k.narrow(2, 0, 5).unwrap()), numbers(&k));
    assert_eq!(numbers(&page.v.narrow(2, 0, 5).unwrap()), numbers(&v));
    assert_eq!(cache.page_used(2), 5);
    let fresh = cache.get_page(0).unwrap();
    assert_eq!(fresh.k.dims(), &[1, HEADS, 16, DIM]);
    assert_eq!(numbers(&fresh.k), vec![0.0; HEADS * 16 * DIM]);
    assert_eq!(numbers(&fresh.v), vec![0.0; HEADS * 16 * DIM]);
    assert_eq!(cache.page_used(0), 0);
}

#[test]
fn an_append_that_the_backend_refuses_leaves_length_and_usage() {
    let mut cache = PagedKvCache::new(HEADS, DIM, 64);
    cache.append(&step(10, 1.0), &step(10, 2.0)).unwrap();
    let halves = Tensor::zeros((1, HEADS, 10, DIM), DType::F16, &Device::Cpu).unwrap();
    assert!(matches!(cache.append(&halves, &halves), Err(CacheError::Backend(_))));
    assert_eq!(cache.current_seq_len(), 10);
    assert_eq!(cache.page_used(0), 10);
    assert_eq!(cache.page_used(1), 0);
    assert_eq!(cache.allocated_pages(), 2);
    let stored = cache.get_cache_tensor().unwrap().unwrap();
    assert_eq!(numbers(&stored.0), numbers(&step(10, 1.0)));
}

#[test]
fn an_append_hands_back_what_it_stored() {
    let mut cache = PagedKvCache::new(HEADS, DIM, 64);
    cache.append(&step(7, 1.0), &step(7, 2.0)).unwrap();
    let k = step(12, 500.0);
    let v = step(12, 900.0);
    let (stored_k, stored_v) = cache.append(&k, &v).unwrap();
    assert_eq!(stored_k.dims(), &[1, HEADS, 12, DIM]);
    assert_eq!(numbers(&stored_k), numbers(&k));
    assert_eq!(numbers(&stored_v), numbers(&v));
    let first = cache.get_page(0).unwrap();
    assert_eq!(numbers(&first.k.narrow(2, 7, 9).unwrap()), numbers(&k.narrow(2, 0, 9).unwrap()));
    let second = cache.get_page(1).unwrap();
    assert_eq!(numbers(&second.v.narrow(2, 0, 3).unwrap()), numbers(&v.narrow(2, 9, 3).unwrap()));
    assert_eq!(cache.page_used(0), 16);
    assert_eq!(cache.page_used(1), 3);
}

#[test]
fn appending_no_position_changes_nothing() {
    let mut cache = PagedKvCache::new(HEADS, DIM, 16);
    cache.append(&step(16, 1.0), &step(16, 2.0)).unwrap();
    let none = Tensor::zeros((1, HEADS, 0, DIM), DType::F32, &Device::Cpu).unwrap();
    assert!(cache.append(&none, &none).is_ok());
    assert_eq!(cache.current_seq_len(), 16);
    assert_eq!(cache.allocated_pages(), 1);
}
