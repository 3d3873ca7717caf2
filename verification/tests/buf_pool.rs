use pepper::buf_pool::BufPool;

#[test]
fn buffers_are_written_shared_and_taken_back() {
    let mut pool = BufPool::new();
    let first = pool.acquire();
    pool.write(&first, b"hello");
    pool.write(&first, b", pool");
    let second = pool.acquire();
    pool.write(&second, b"other");

    let shared = pool.share(first);
    assert_eq!(b"hello, pool", pool.bytes(&shared));
    let again = pool.retain(&shared).unwrap();
    pool.release(shared);
    assert_eq!(b"hello, pool", pool.bytes(&again));

    let third = pool.acquire();
    pool.write(&third, b"3");
    let third = pool.share(third);
    assert_eq!(b"3", pool.bytes(&third));

    pool.release(again);
    let reused = pool.acquire();
    pool.write(&reused, b"new");
    let reused = pool.share(reused);
    assert_eq!(b"new", pool.bytes(&reused));
    let second = pool.share(second);
    assert_eq!(b"other", pool.bytes(&second));
    assert_eq!(b"3", pool.bytes(&third));
}
