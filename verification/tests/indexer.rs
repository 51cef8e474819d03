use genmesh::indexer::{Indexer, LruIndexer};
use std::cell::RefCell;

#[test]
fn index_twice_gives_the_same_index_and_emits_once() {
    let emitted = RefCell::new(Vec::new());
    let mut indexer = LruIndexer::new(4, |i, v| emitted.borrow_mut().push((i, v)));
    assert_eq!(0, indexer.index('a'));
    assert_eq!(0, indexer.index('a'));
    assert_eq!(vec![(0, 'a')], *emitted.borrow());
    assert_eq!(1, indexer.index('b'));
    assert_eq!(1, indexer.index('b'));
    assert_eq!(0, indexer.index('a'));
    assert_eq!(vec![(0, 'a'), (1, 'b')], *emitted.borrow());
}

#[test]
fn a_full_window_forgets_the_oldest() {
    // window of 3: three vertices, then a fourth, then the first again
    let emitted = RefCell::new(Vec::new());
    let mut indexer = LruIndexer::new(3, |i, v| emitted.borrow_mut().push((i, v)));
    assert_eq!(0, indexer.index(10u32));
    assert_eq!(1, indexer.index(20));
    assert_eq!(2, indexer.index(30));
    assert_eq!(3, indexer.index(40));
    assert_eq!(4, indexer.index(10));
    assert_eq!(
        vec![(0, 10), (1, 20), (2, 30), (3, 40), (4, 10)],
        *emitted.borrow()
    );
}

#[test]
fn a_hit_makes_a_vertex_the_newest() {
    let emitted = RefCell::new(Vec::new());
    let mut indexer = LruIndexer::new(3, |i, v| emitted.borrow_mut().push((i, v)));
    assert_eq!(0, indexer.index("a"));
    assert_eq!(1, indexer.index("b"));
    assert_eq!(2, indexer.index("c"));
    // "a" is used again, so "b" is the oldest now
    assert_eq!(0, indexer.index("a"));
    assert_eq!(3, indexer.index("d"));
    assert_eq!(0, indexer.index("a"));
    assert_eq!(2, indexer.index("c"));
    // "b" was forgotten
    assert_eq!(4, indexer.index("b"));
    assert_eq!(
        vec![(0, "a"), (1, "b"), (2, "c"), (3, "d"), (4, "b")],
        *emitted.borrow()
    );
}

/// Indexes `vs` with whatever indexer it is given.
fn index_all<I: Indexer<u8>>(indexer: &mut I, vs: &[u8]) -> Vec<usize> {
    vs.iter().map(|v| indexer.index(*v)).collect()
}

#[test]
fn an_lru_indexer_is_an_indexer() {
    let mut count = 0;
    let mut indexer = LruIndexer::new(2, |_, _: u8| count += 1);
    assert_eq!(vec![0, 1, 0, 2, 0], index_all(&mut indexer, &[5, 6, 5, 7, 5]));
    assert_eq!(vec![3], index_all(&mut indexer, &[6]));
    assert_eq!(4, count);
}

#[test]
fn a_window_of_one_remembers_the_last_vertex_only() {
    let mut count = 0;
    let mut indexer = LruIndexer::new(1, |_, _: u8| count += 1);
    assert_eq!(0, indexer.index(7));
    assert_eq!(0, indexer.index(7));
    assert_eq!(1, indexer.index(8));
    assert_eq!(2, indexer.index(7));
    assert_eq!(3, count);
}

#[test]
fn indices_resolve_to_the_indexed_vertices() {
    let input = [3u8, 1, 4, 1, 5, 9, 2, 6, 5, 3, 5, 8, 9, 7, 9, 3];
    let emitted = RefCell::new(Vec::new());
    let mut indexer = LruIndexer::new(3, |i, v| {
        // the indices are given out in order
        assert_eq!(i, emitted.borrow().len());
        emitted.borrow_mut().push(v)
    });
    let indices: Vec<usize> = input.iter().map(|v| indexer.index(*v)).collect();
    assert_eq!(
        vec![0, 1, 2, 1, 3, 4, 5, 6, 7, 8, 7, 9, 10, 11, 10, 12],
        indices
    );
    for (k, i) in indices.iter().enumerate() {
        assert_eq!(input[k], emitted.borrow()[*i]);
    }
}
