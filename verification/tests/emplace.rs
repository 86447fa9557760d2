use ip_init::boxed::{emplace, emplace_pin, try_emplace, try_emplace_pin, AllocError};
use ip_init::func::{InitFn, PinInitFn, TryInitFn};
use ip_init::layout::{Layout, LayoutError, SizedLayoutProvider, SliceLayoutProvider};
use ip_init::memory::{Event, Memory, ARENA_BASE};
use ip_init::pin_ptr::{PinnedInit, PinnedUninit};
use ip_init::ptr::{Init, Uninit};
use ip_init::slice::{SliceInit, SliceWriter};
use std::cell::Cell;

#[test]
fn emplace_single_value() {
    let mut mem: Memory<u32> = Memory::new(1024);
    let boxed = match try_emplace::<u32, _, _>(&mut mem, SizedLayoutProvider, 7u32) {
        Ok(boxed) => boxed,
        Err(_) => panic!("emplace failed"),
    };
    assert_eq!(*boxed.get(&mem), 7);
    let ptr = boxed.as_ptr();
    assert_eq!(ptr.addr, ARENA_BASE);
    assert_eq!(ptr.index, 0);
    let layout = Layout { size: 4, align: 4 };
    assert_eq!(mem.events(), &vec![Event::Allocated { block: 0, layout }]);
    boxed.release(&mut mem);
    assert_eq!(
        mem.events(),
        &vec![
            Event::Allocated { block: 0, layout },
            Event::Destroyed { block: 0, index: 0 },
            Event::Deallocated { block: 0, layout },
        ]
    );
    assert!(!mem.is_live(0));
    assert!(!mem.holds(0, 0));
}

#[test]
fn emplace_out_of_memory_runs_no_initializer() {
    let mut mem: Memory<u64> = Memory::new(4);
    let calls = Cell::new(0usize);
    let init = InitFn::new(|mut m: Memory<u64>, slot: Uninit<u64>| {
        calls.set(calls.get() + 1);
        let init: Init<u64> = slot.write(&mut m, 1);
        (m, init)
    });
    match try_emplace::<u64, _, _>(&mut mem, SizedLayoutProvider, init) {
        Err(AllocError::Alloc(layout)) => assert_eq!(layout, Layout { size: 8, align: 8 }),
        _ => panic!("expected the allocator to fail"),
    }
    assert_eq!(calls.get(), 0);
    assert_eq!(mem.events().len(), 0);
    assert_eq!(mem.block_count(), 0);
}

#[test]
fn emplace_layout_error_allocates_nothing() {
    let mut mem: Memory<u64> = Memory::new(1 << 20);
    let calls = Cell::new(0usize);
    let fill = InitFn::new(|m: Memory<u64>, slot: Uninit<[u64]>| {
        calls.set(calls.get() + 1);
        let mut m = m;
        let init = SliceWriter::new(slot).for_each(&mut m, |mut m: Memory<u64>, cell: Uninit<u64>| {
            let init = cell.write(&mut m, 0);
            (m, init)
        });
        (m, init)
    });
    match try_emplace::<[u64], _, _>(&mut mem, SliceLayoutProvider(usize::MAX / 4), fill) {
        Err(AllocError::Layout(e)) => assert_eq!(e, LayoutError),
        _ => panic!("expected the layout to fail"),
    }
    assert_eq!(calls.get(), 0);
    assert_eq!(mem.events().len(), 0);
    assert_eq!(mem.block_count(), 0);
}

#[test]
fn emplace_slice_of_ascending_integers() {
    let mut mem: Memory<usize> = Memory::new(1024);
    let next = Cell::new(0usize);
    let each = InitFn::new(|mut m: Memory<usize>, cell: Uninit<usize>| {
        let value = next.get();
        next.set(value + 1);
        let init = cell.write(&mut m, value);
        (m, init)
    });
    let boxed = match try_emplace::<[usize], _, _>(&mut mem, SliceLayoutProvider(5), SliceInit::new(each)) {
        Ok(boxed) => boxed,
        Err(_) => panic!("emplace failed"),
    };
    let ptr = boxed.as_ptr();
    let init: Init<[usize]> = Init::from_raw(ptr);
    assert_eq!(init.len(), 5);
    let read: Vec<usize> = (0..5).map(|k| *init.get(&mem, k)).collect();
    assert_eq!(read, vec![0, 1, 2, 3, 4]);
    assert_eq!(mem.events().len(), 1);
}

#[test]
fn emplace_slice_third_initializer_fails() {
    let mut mem: Memory<u32> = Memory::new(1024);
    let next = Cell::new(0u32);
    let each = TryInitFn::new(|mut m: Memory<u32>, cell: Uninit<u32>| {
        let value = next.get();
        next.set(value + 1);
        if value == 2 {
            (m, Err("third"))
        } else {
            let init = cell.write(&mut m, value);
            (m, Ok(init))
        }
    });
    match try_emplace::<[u32], _, _>(&mut mem, SliceLayoutProvider(5), SliceInit::new(each)) {
        Err(AllocError::Init(e)) => assert_eq!(e, "third"),
        _ => panic!("expected the initializer to fail"),
    }
    assert_eq!(next.get(), 3);
    let layout = Layout { size: 20, align: 4 };
    assert_eq!(
        mem.events(),
        &vec![
            Event::Allocated { block: 0, layout },
            Event::Destroyed { block: 0, index: 0 },
            Event::Destroyed { block: 0, index: 1 },
            Event::Deallocated { block: 0, layout },
        ]
    );
    for index in 0..5 {
        assert!(!mem.holds(0, index));
    }
    assert!(!mem.is_live(0));
}

#[test]
fn emplace_failure_rolls_back_without_destructor() {
    let mut mem: Memory<u32> = Memory::new(1024);
    let init = TryInitFn::new(|m: Memory<u32>, _slot: Uninit<u32>| (m, Err::<Init<u32>, i32>(-1)));
    match try_emplace::<u32, _, _>(&mut mem, SizedLayoutProvider, init) {
        Err(AllocError::Init(e)) => assert_eq!(e, -1),
        _ => panic!("expected the initializer to fail"),
    }
    let layout = Layout { size: 4, align: 4 };
    assert_eq!(
        mem.events(),
        &vec![Event::Allocated { block: 0, layout }, Event::Deallocated { block: 0, layout }]
    );
    assert!(!mem.is_live(0));
}

#[test]
fn emplace_zero_sized_value_allocates_nothing() {
    let mut mem: Memory<()> = Memory::new(0);
    let boxed = match try_emplace::<(), _, _>(&mut mem, SizedLayoutProvider, ()) {
        Ok(boxed) => boxed,
        Err(_) => panic!("emplace failed"),
    };
    let ptr = boxed.as_ptr();
    assert_eq!(ptr.addr, 1);
    assert_eq!(*boxed.get(&mem), ());
    assert_eq!(mem.events().len(), 0);
    assert!(mem.is_live(ptr.block));
    boxed.release(&mut mem);
    assert_eq!(mem.events(), &vec![Event::Destroyed { block: 0, index: 0 }]);
    assert!(!mem.is_live(0));
}

#[test]
fn emplace_empty_slice_allocates_nothing() {
    let mut mem: Memory<u64> = Memory::new(0);
    let calls = Cell::new(0usize);
    let each = InitFn::new(|mut m: Memory<u64>, cell: Uninit<u64>| {
        calls.set(calls.get() + 1);
        let init = cell.write(&mut m, 9);
        (m, init)
    });
    let boxed = match try_emplace::<[u64], _, _>(&mut mem, SliceLayoutProvider(0), SliceInit::new(each)) {
        Ok(boxed) => boxed,
        Err(_) => panic!("emplace failed"),
    };
    let ptr = boxed.as_ptr();
    assert_eq!(ptr.addr, 8);
    assert_eq!(ptr.shape.len(), 0);
    assert_eq!(calls.get(), 0);
    assert_eq!(mem.events().len(), 0);
    boxed.release(&mut mem);
    assert_eq!(mem.events().len(), 0);
    assert!(!mem.is_live(0));
}

#[test]
fn emplace_slice_of_zero_sized_values() {
    let mut mem: Memory<()> = Memory::new(0);
    let boxed = match try_emplace::<[()], _, _>(&mut mem, SliceLayoutProvider(3), SliceInit::new(())) {
        Ok(boxed) => boxed,
        Err(_) => panic!("emplace failed"),
    };
    let ptr = boxed.as_ptr();
    assert_eq!(ptr.addr, 1);
    for index in 0..3 {
        assert!(mem.holds(ptr.block, index));
    }
    assert_eq!(mem.events().len(), 0);
    boxed.release(&mut mem);
    assert_eq!(
        mem.events(),
        &vec![
            Event::Destroyed { block: 0, index: 0 },
            Event::Destroyed { block: 0, index: 1 },
            Event::Destroyed { block: 0, index: 2 },
        ]
    );
}

#[test]
fn emplace_infallible() {
    let mut mem: Memory<i64> = Memory::new(64);
    let boxed = emplace::<i64, _, _>(&mut mem, SizedLayoutProvider, -5i64);
    assert_eq!(*boxed.get(&mem), -5);
    let second = emplace::<i64, _, _>(&mut mem, SizedLayoutProvider, 6i64);
    assert_eq!(second.as_ptr().addr, ARENA_BASE + 8);
    assert_eq!(second.as_ptr().block, 1);
    assert_eq!(*second.get(&mem), 6);
    assert_eq!(*boxed.get(&mem), -5);
}

#[test]
fn emplace_pinned() {
    let mut mem: Memory<u16> = Memory::new(64);
    let init = PinInitFn::new(|mut m: Memory<u16>, slot: PinnedUninit<u16>| {
        let addr = slot.as_ptr().addr;
        let init: PinnedInit<u16> = slot.write(&mut m, addr as u16);
        (m, init)
    });
    let boxed = emplace_pin::<u16, _, _>(&mut mem, SizedLayoutProvider, init);
    let ptr = boxed.as_ptr();
    assert_eq!(ptr.addr, ARENA_BASE);
    assert_eq!(*mem.read(ptr), ARENA_BASE as u16);
    boxed.release(&mut mem);
    assert_eq!(mem.events().len(), 3);

    match try_emplace_pin::<u16, _, _>(&mut mem, SizedLayoutProvider, 3u16) {
        Ok(boxed) => {
            assert_eq!(boxed.as_ptr().addr, ARENA_BASE + 2);
            assert_eq!(*mem.read(boxed.as_ptr()), 3);
        }
        Err(_) => panic!("emplace failed"),
    }
}

#[test]
fn allocator_aligns_and_runs_out() {
    let mut mem: Memory<u8> = Memory::new(32);
    let a = mem.allocate(Layout { size: 3, align: 1 }).unwrap();
    assert_eq!(a.addr, ARENA_BASE);
    let b = mem.allocate(Layout { size: 8, align: 8 }).unwrap();
    assert_eq!(b.addr, ARENA_BASE + 8);
    let c = mem.allocate(Layout { size: 16, align: 16 }).unwrap();
    assert_eq!(c.addr, ARENA_BASE + 16);
    assert!(mem.allocate(Layout { size: 1, align: 1 }).is_none());
    assert_eq!(mem.block_count(), 3);
    mem.deallocate(b, Layout { size: 8, align: 8 });
    assert!(!mem.is_live(1));
    assert!(mem.is_live(0));
    assert_eq!(mem.events().len(), 4);
}

#[test]
fn emplaced_values_are_aligned() {
    let mut mem: Memory<u64> = Memory::new(1024);
    let odd = mem.allocate(Layout { size: 3, align: 1 }).unwrap();
    assert_eq!(odd.addr, ARENA_BASE);
    let boxed = emplace::<u64, _, _>(&mut mem, SizedLayoutProvider, 1u64);
    assert_eq!(boxed.as_ptr().addr, ARENA_BASE + 8);
    assert_eq!(boxed.as_ptr().addr % 8, 0);
    let slice = emplace::<[u64], _, _>(&mut mem, SliceLayoutProvider(3), SliceInit::new(2u64));
    assert_eq!(slice.as_ptr().addr, ARENA_BASE + 16);
    assert_eq!(slice.as_ptr().shape.len(), 3);
    slice.release(&mut mem);
    boxed.release(&mut mem);
    assert_eq!(mem.events().len(), 3 + 4 + 2);
}
