use ip_init::func::{InitFn, TryInitFn};
use ip_init::memory::{Event, Memory, Ptr, Shape};
use ip_init::pin::{AsInit, AsPinInit};
use ip_init::pin_ptr::{PinnedInit, PinnedUninit};
use ip_init::ptr::{Init, Uninit};
use ip_init::raw::{init_in_place, pin_init_in_place, try_init_in_place, try_pin_init_in_place};
use ip_init::slice::{PinSliceWriter, SliceInit, SliceIterInit, SliceIterInitError, SliceWriter};
use ip_init::traits::{TryInitialize, TryPinInitialize};

fn buffer(mem: &mut Memory<u32>, len: usize) -> Uninit<[u32]> {
    Uninit::<[u32]>::from_maybe_uninit_slice(mem, 0x8000, len)
}

/// The pointer to a buffer for one value at `addr`.
fn slot_at(mem: &mut Memory<u32>, addr: usize) -> Ptr {
    Uninit::<u32>::from_maybe_uninit(mem, addr).as_non_null_ptr()
}

#[test]
fn writer_fills_left_to_right() {
    let mut mem: Memory<u32> = Memory::new(0);
    let slot = buffer(&mut mem, 3);
    let target = slot.as_ptr();
    assert_eq!(target, Ptr { addr: 0x8000, block: 0, index: 0, shape: Shape::Slice(3) });
    let mut writer = SliceWriter::new(slot);
    assert!(!writer.is_finished());
    writer.write(&mut mem, 10u32);
    assert!(mem.holds(0, 0));
    assert!(!mem.holds(0, 1));
    assert!(writer.try_write(&mut mem, 11u32).is_ok());
    writer.init(&mut mem, 12u32);
    assert!(writer.is_finished());
    let init = writer.finish(&mem);
    assert_eq!(init.as_ptr(), target);
    assert_eq!((*init.get(&mem, 0), *init.get(&mem, 1), *init.get(&mem, 2)), (10, 11, 12));
    assert_eq!(mem.events().len(), 0);
    init.destroy(&mut mem);
    assert_eq!(
        mem.events(),
        &vec![
            Event::Destroyed { block: 0, index: 0 },
            Event::Destroyed { block: 0, index: 1 },
            Event::Destroyed { block: 0, index: 2 },
        ]
    );
}

#[test]
fn writer_given_up_destroys_the_prefix_only() {
    let mut mem: Memory<u32> = Memory::new(0);
    let slot = buffer(&mut mem, 5);
    let mut writer = SliceWriter::new(slot);
    writer.write(&mut mem, 1u32);
    writer.write(&mut mem, 2u32);
    let failing = TryInitFn::new(|m: Memory<u32>, _cell: Uninit<u32>| (m, Err::<Init<u32>, u8>(7)));
    assert_eq!(writer.try_write(&mut mem, failing), Err(7));
    assert!(!writer.is_finished());
    assert!(mem.holds(0, 0) && mem.holds(0, 1) && !mem.holds(0, 2));
    writer.discard(&mut mem);
    assert_eq!(
        mem.events(),
        &vec![Event::Destroyed { block: 0, index: 0 }, Event::Destroyed { block: 0, index: 1 }]
    );
    for index in 0..5 {
        assert!(!mem.holds(0, index));
    }
}

#[test]
fn writer_of_empty_slice_is_finished() {
    let mut mem: Memory<u32> = Memory::new(0);
    let slot = buffer(&mut mem, 0);
    let writer = SliceWriter::new(slot);
    assert!(writer.is_finished());
    let init = writer.finish(&mem);
    assert!(init.is_empty());
    assert_eq!(init.len(), 0);
}

#[test]
fn try_for_each_stops_at_the_first_failure() {
    let mut mem: Memory<u32> = Memory::new(0);
    let slot = buffer(&mut mem, 4);
    let calls = std::cell::Cell::new(0u32);
    let res = SliceWriter::new(slot).try_for_each(&mut mem, |mut m: Memory<u32>, cell: Uninit<u32>| {
        let n = calls.get();
        calls.set(n + 1);
        if n == 3 {
            (m, Err("fourth"))
        } else {
            let init = cell.write(&mut m, n * n);
            (m, Ok(init))
        }
    });
    assert!(matches!(res, Err("fourth")));
    assert_eq!(calls.get(), 4);
    assert_eq!(mem.events().len(), 3);
    assert_eq!(mem.events()[2], Event::Destroyed { block: 0, index: 2 });
}

#[test]
fn pinned_writer_fills_and_rolls_back() {
    let mut mem: Memory<u32> = Memory::new(0);
    let slot = PinnedUninit::new(buffer(&mut mem, 3));
    assert_eq!(slot.len(), 3);
    assert!(!slot.is_empty());
    let init = PinSliceWriter::new(slot).for_each(&mut mem, |mut m: Memory<u32>, cell: PinnedUninit<u32>| {
        let value = cell.as_ptr().index as u32 + 40;
        let init: PinnedInit<u32> = cell.write(&mut m, value);
        (m, init)
    });
    assert_eq!(init.len(), 3);
    let ptr = init.as_ptr();
    assert_eq!(*mem.read(ptr.first().add::<u32>(2)), 42);
    init.destroy(&mut mem);
    assert_eq!(mem.events().len(), 3);

    let second = PinnedUninit::new(Uninit::<[u32]>::from_maybe_uninit_slice(&mut mem, 0x9000, 3));
    let mut writer = PinSliceWriter::new(second);
    writer.init(&mut mem, 5u32);
    assert!(writer.try_write(&mut mem, 6u32).is_ok());
    writer.discard(&mut mem);
    assert_eq!(mem.events().len(), 5);
    assert_eq!(mem.events()[3], Event::Destroyed { block: 1, index: 0 });
    assert_eq!(mem.events()[4], Event::Destroyed { block: 1, index: 1 });
}

#[test]
fn slice_init_clones_the_value() {
    let mut mem: Memory<u32> = Memory::new(0);
    let slot = buffer(&mut mem, 4);
    let init = match SliceInit::new(9u32).try_init(&mut mem, slot) {
        Ok(init) => init,
        Err(e) => match e {},
    };
    for k in 0..4 {
        assert_eq!(*init.get(&mem, k), 9);
    }
    let pinned = PinnedUninit::new(Uninit::<[u32]>::from_maybe_uninit_slice(&mut mem, 0x9000, 2));
    let init = match SliceInit::new(4u32).try_pin_init(&mut mem, pinned) {
        Ok(init) => init,
        Err(e) => match e {},
    };
    assert_eq!(*mem.read(init.as_ptr().first().add::<u32>(1)), 4);
}

#[test]
fn slice_iter_init_takes_one_item_per_cell() {
    let mut mem: Memory<u32> = Memory::new(0);
    let slot = buffer(&mut mem, 3);
    let items = vec![5u32, 6, 7, 8].into_iter();
    let init = match SliceIterInit::new(items).try_init(&mut mem, slot) {
        Ok(init) => init,
        Err(_) => panic!("enough items were given"),
    };
    assert_eq!((*init.get(&mem, 0), *init.get(&mem, 1), *init.get(&mem, 2)), (5, 6, 7));
}

#[test]
fn slice_iter_init_not_enough_items() {
    let mut mem: Memory<u32> = Memory::new(0);
    let slot = buffer(&mut mem, 3);
    let items = vec![5u32, 6].into_iter();
    match SliceIterInit::new(items).try_init(&mut mem, slot) {
        Err(SliceIterInitError::NotEnoughItems) => {}
        _ => panic!("two items cannot fill three cells"),
    }
    assert_eq!(
        mem.events(),
        &vec![Event::Destroyed { block: 0, index: 0 }, Event::Destroyed { block: 0, index: 1 }]
    );
    let pinned = PinnedUninit::new(Uninit::<[u32]>::from_maybe_uninit_slice(&mut mem, 0x9000, 1));
    let none: Vec<u32> = Vec::new();
    match SliceIterInit::new(none.into_iter()).try_pin_init(&mut mem, pinned) {
        Err(SliceIterInitError::NotEnoughItems) => {}
        _ => panic!("no item cannot fill a cell"),
    }
    assert_eq!(mem.events().len(), 2);
}

#[test]
fn slice_iter_init_item_fails() {
    let mut mem: Memory<u32> = Memory::new(0);
    let slot = buffer(&mut mem, 3);
    let items = (0..3u32).map(|n| {
        TryInitFn::new(move |mut m: Memory<u32>, cell: Uninit<u32>| {
            if n == 1 {
                (m, Err(n))
            } else {
                let init = cell.write(&mut m, n);
                (m, Ok(init))
            }
        })
    });
    match SliceIterInit::new(items).try_init(&mut mem, slot) {
        Err(SliceIterInitError::Init(e)) => assert_eq!(e, 1),
        _ => panic!("the second item fails"),
    }
    assert_eq!(mem.events(), &vec![Event::Destroyed { block: 0, index: 0 }]);
}

#[test]
fn in_place_keeps_the_pointer() {
    let mut mem: Memory<u32> = Memory::new(0);
    let ptr = slot_at(&mut mem, 0x100);
    assert!(try_init_in_place::<u32, _>(3u32, &mut mem, ptr).is_ok());
    assert_eq!(*mem.read(ptr), 3);
    let second = slot_at(&mut mem, 0x200);
    init_in_place::<u32, _>(4u32, &mut mem, second);
    assert_eq!(*mem.read(second), 4);
    let third = slot_at(&mut mem, 0x300);
    assert!(try_pin_init_in_place::<u32, _>(5u32, &mut mem, third).is_ok());
    let fourth = slot_at(&mut mem, 0x400);
    pin_init_in_place::<u32, _>(6u32, &mut mem, fourth);
    assert_eq!((*mem.read(third), *mem.read(fourth)), (5, 6));
    let failing = TryInitFn::new(|m: Memory<u32>, _cell: Uninit<u32>| (m, Err::<Init<u32>, i8>(-3)));
    let fifth = slot_at(&mut mem, 0x500);
    assert_eq!(try_init_in_place::<u32, _>(failing, &mut mem, fifth), Err(-3));
    assert!(!mem.holds(fifth.block, 0));
}

#[test]
fn pin_bridge_runs_the_initializer_inside() {
    let mut mem: Memory<u32> = Memory::new(0);
    let slot = PinnedUninit::new(Uninit::<u32>::from_maybe_uninit(&mut mem, 0x100));
    let addr = slot.as_non_null_ptr();
    let plain = InitFn::new(|mut m: Memory<u32>, cell: Uninit<u32>| {
        let init = cell.write(&mut m, 21);
        (m, init)
    });
    let pinned = match AsPinInit::new(plain).try_pin_init(&mut mem, slot) {
        Ok(init) => init,
        Err(e) => match e {},
    };
    assert_eq!(pinned.as_ptr(), addr);
    assert_eq!(*pinned.get(&mem), 21);
    let init = PinnedInit::into_inner(pinned);
    assert_eq!(*init.get(&mem), 21);

    let slot = Uninit::<u32>::from_maybe_uninit(&mut mem, 0x200);
    let back = match AsInit::<u32, u32>::new(8u32).try_init(&mut mem, slot) {
        Ok(init) => init,
        Err(e) => match e {},
    };
    assert_eq!(*back.get(&mem), 8);
    let slot = Uninit::<u32>::from_maybe_uninit(&mut mem, 0x300);
    let through = match TryInitialize::<u32>::to_pin_init(2u32).try_init(&mut mem, slot) {
        Ok(init) => init,
        Err(e) => match e {},
    };
    assert_eq!(*through.get(&mem), 2);
    assert_eq!(through.into_raw().addr, 0x300);
}

#[test]
fn writer_by_its_shorter_name() {
    let mut mem: Memory<u32> = Memory::new(0);
    let slot = buffer(&mut mem, 2);
    let mut writer = ip_init::slice::Writer::new(slot);
    assert!(ip_init::slice::Writer::try_init(&mut writer, &mut mem, 1u32).is_ok());
    assert!(writer.try_init_unchecked(&mut mem, 2u32).is_ok());
    assert!(writer.is_finished());
    let init = writer.finish_unchecked(&mem);
    assert_eq!((*init.get(&mem, 0), *init.get(&mem, 1)), (1, 2));
}

#[test]
fn initializers_turn_into_slice_initializers() {
    let mut mem: Memory<u32> = Memory::new(0);
    let slot = buffer(&mut mem, 2);
    let init = match TryInitialize::<u32>::to_slice_init(7u32).try_init(&mut mem, slot) {
        Ok(init) => init,
        Err(e) => match e {},
    };
    assert_eq!((*init.get(&mem, 0), *init.get(&mem, 1)), (7, 7));
    let slot = PinnedUninit::new(Uninit::<[u32]>::from_maybe_uninit_slice(&mut mem, 0x9000, 2));
    let init = match TryPinInitialize::<u32>::to_pin_slice_init(8u32).try_pin_init(&mut mem, slot) {
        Ok(init) => init,
        Err(e) => match e {},
    };
    assert_eq!(*mem.read(init.as_ptr().first()), 8);
    let slot = Uninit::<u32>::from_maybe_uninit(&mut mem, 0xa000);
    let init = match TryPinInitialize::<u32>::to_init(9u32).try_init(&mut mem, slot) {
        Ok(init) => init,
        Err(e) => match e {},
    };
    assert_eq!(*init.get(&mem), 9);
}

#[test]
fn array_init_runs_the_slice_initializer() {
    let mut mem: Memory<u32> = Memory::new(0);
    let slot = buffer(&mut mem, 3);
    let target = slot.as_ptr();
    let init = ip_init::array::ArrayInit::<_, 3>::new(SliceInit::new(6u32));
    let init = match TryInitialize::<[u32]>::try_init(init, &mut mem, slot) {
        Ok(init) => init,
        Err(e) => match e {},
    };
    assert_eq!(init.as_ptr(), target);
    assert_eq!((*init.get(&mem, 0), *init.get(&mem, 1), *init.get(&mem, 2)), (6, 6, 6));
    let pinned = PinnedUninit::new(Uninit::<[u32]>::from_maybe_uninit_slice(&mut mem, 0x9000, 2));
    let init = ip_init::array::ArrayInit::<_, 2>::new(SliceIterInit::new(vec![1u32, 2].into_iter()));
    match TryPinInitialize::<[u32]>::try_pin_init(init, &mut mem, pinned) {
        Ok(init) => assert_eq!(*mem.read(init.as_ptr().first().add::<u32>(1)), 2),
        Err(_) => panic!("two items fill two cells"),
    }
}
