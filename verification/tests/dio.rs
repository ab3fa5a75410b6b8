use ublkera::dio::DioBuf;

#[test]
fn buffers_start_on_a_page() {
    for len in [0usize, 1, 4096, 100_000] {
        let mut buf = DioBuf::new(len);
        assert!(buf.fits());
        assert_eq!(buf.store.len(), len + 4096);
        assert_eq!(buf.get().len(), len);
        assert_eq!(buf.get().as_ptr() as usize % 4096, 0);
        assert!(buf.get().iter().all(|&b| b == 0));
        buf.get_mut().fill(3);
        assert!(buf.get().iter().all(|&b| b == 3));
    }
}

#[test]
fn a_window_may_not_fit_its_store() {
    let window = |off: usize, len: usize| DioBuf { store: vec![1, 2, 3, 4], off, len };
    assert!(window(1, 3).fits());
    assert!(window(4, 0).fits());
    assert!(!window(2, 3).fits());
    assert!(!window(usize::MAX, 1).fits());
    assert_eq!(window(1, 2).get(), [2, 3]);
}
