use file_transfer::port_allocator::PortAllocator;

#[test]
fn test_port_allocator_1() {
    let mut allocator = PortAllocator::new(1, 2);
    let port_1 = allocator.allocate();
    let port_2 = allocator.allocate();

    assert_ne!(port_1, port_2);
    assert_eq!(allocator.pool_size(), 0);

    allocator.dealloc(port_1);
    assert_eq!(allocator.pool_size(), 1);

    allocator.dealloc(port_2);
    assert_eq!(allocator.pool_size(), 2);
}

#[test]
fn test_port_allocator_3() {
    let mut allocator = PortAllocator::new(1, 5);

    let mut ports = (1..=5).collect::<Vec<u16>>();
    ports.sort();

    let mut ports_after = Vec::with_capacity(5);
    for _ in 1..=5 {
        ports_after.push(allocator.allocate());
    }
    ports_after.sort();

    assert_eq!(ports, ports_after);
}

#[test]
fn test_new_pool_holds_the_whole_range() {
    let allocator = PortAllocator::new(5000, 5009);
    assert_eq!(allocator.pool_size(), 10);
    assert_eq!(allocator.first_port(), 5000);
    assert_eq!(allocator.last_port(), 5009);
}

#[test]
fn test_pool_of_one_port() {
    let mut allocator = PortAllocator::new(7, 7);
    assert_eq!(allocator.pool_size(), 1);
    assert_eq!(allocator.allocate(), 7);
    assert_eq!(allocator.pool_size(), 0);
}

#[test]
fn test_pool_at_the_top_of_the_port_numbers() {
    let mut allocator = PortAllocator::new(65534, 65535);
    assert_eq!(allocator.pool_size(), 2);
    assert_eq!(allocator.allocate(), 65535);
    assert_eq!(allocator.allocate(), 65534);
}

#[test]
fn test_allocate_hands_out_the_last_free_port() {
    let mut allocator = PortAllocator::new(10, 12);
    assert_eq!(allocator.allocate(), 12);
    assert_eq!(allocator.allocate(), 11);
    allocator.dealloc(12);
    assert_eq!(allocator.allocate(), 12);
    assert_eq!(allocator.allocate(), 10);
    assert_eq!(allocator.pool_size(), 0);
}

#[test]
fn test_matched_pairs_leave_the_pool_full() {
    let mut allocator = PortAllocator::new(100, 103);
    let a = allocator.allocate();
    let b = allocator.allocate();
    allocator.dealloc(a);
    let c = allocator.allocate();
    let d = allocator.allocate();
    allocator.dealloc(d);
    allocator.dealloc(b);
    allocator.dealloc(c);
    assert_eq!(allocator.pool_size(), 103 - 100 + 1);
}

#[test]
fn test_no_port_is_handed_out_twice() {
    let mut allocator = PortAllocator::new(20, 27);
    let mut held: Vec<u16> = Vec::new();
    while allocator.pool_size() > 0 {
        let port = allocator.allocate();
        assert!(!held.contains(&port));
        assert!((20..=27).contains(&port));
        held.push(port);
    }
    assert_eq!(held.len(), 8);
}

#[test]
fn test_double_dealloc_changes_nothing() {
    let mut allocator = PortAllocator::new(1, 2);
    let port = allocator.allocate();
    allocator.dealloc(port);
    allocator.dealloc(port);
    assert_eq!(allocator.pool_size(), 2);
    let first = allocator.allocate();
    let second = allocator.allocate();
    assert_ne!(first, second);
    assert_eq!(allocator.pool_size(), 0);
}

#[test]
fn test_dealloc_of_a_port_that_was_never_taken() {
    let mut allocator = PortAllocator::new(10, 12);
    allocator.dealloc(11);
    allocator.dealloc(10);
    allocator.dealloc(12);
    assert_eq!(allocator.pool_size(), 3);
    assert_eq!(allocator.allocate(), 12);
    assert_eq!(allocator.allocate(), 11);
    assert_eq!(allocator.allocate(), 10);
}

#[test]
fn test_pool_never_outgrows_the_range() {
    let mut allocator = PortAllocator::new(30, 33);
    let taken = allocator.allocate();
    for _ in 0..5 {
        for port in 30..=33 {
            allocator.dealloc(port);
            assert!(allocator.pool_size() <= 4);
        }
    }
    assert_eq!(allocator.pool_size(), 4);
    assert!(allocator.is_free(taken));
}

#[test]
fn test_is_free() {
    let mut allocator = PortAllocator::new(1, 3);
    assert!(allocator.is_free(1) && allocator.is_free(2) && allocator.is_free(3));
    assert!(!allocator.is_free(4));
    let port = allocator.allocate();
    assert!(!allocator.is_free(port));
    allocator.dealloc(port);
    assert!(allocator.is_free(port));
}
