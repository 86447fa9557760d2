use ip_init::boxed::{handle, AllocError, Fatal};
use ip_init::iter::{InitIter, PinnedInitIter, PinnedUninitIter, UninitIter};
use ip_init::layout::{Layout, LayoutError};
use ip_init::macros::{bind, bind_pin};
use ip_init::memory::{Event, Memory, Ptr, Shape};
use ip_init::pin_ptr::{PinnedInit, PinnedUninit};
use ip_init::ptr::{Init, Uninit};

#[test]
fn write_keeps_the_address() {
    let mut mem: Memory<String> = Memory::new(0);
    let mut slot = Uninit::<String>::from_maybe_uninit(&mut mem, 0x40);
    let ptr = slot.as_ptr();
    assert_eq!(ptr, Ptr { addr: 0x40, block: 0, index: 0, shape: Shape::Fixed });
    assert_eq!(slot.as_mut_ptr(), ptr);
    assert_eq!(slot.as_non_null_ptr(), ptr);
    let mut init = slot.write(&mut mem, String::from("here"));
    assert_eq!(init.as_ptr(), ptr);
    assert_eq!(init.as_mut_ptr(), ptr);
    assert_eq!(init.as_non_null_ptr(), ptr);
    assert_eq!(init.get(&mem), "here");
    let raw = init.into_raw();
    assert_eq!(raw, ptr);
    assert!(mem.holds(0, 0));
    assert_eq!(mem.events().len(), 0);
    let again: Init<String> = Init::from_raw(raw);
    again.destroy(&mut mem);
    assert!(!mem.holds(0, 0));
    assert_eq!(mem.events(), &vec![Event::Destroyed { block: 0, index: 0 }]);
}

#[test]
fn take_and_replace_run_no_destructor() {
    let mut mem: Memory<u8> = Memory::new(0);
    let slot = Uninit::<u8>::from_maybe_uninit(&mut mem, 0x40);
    let ptr = slot.write(&mut mem, 1).into_raw();
    assert_eq!(mem.replace(ptr, 2), 1);
    assert_eq!(*mem.read(ptr), 2);
    assert_eq!(mem.take(ptr), 2);
    assert!(!mem.holds(ptr.block, ptr.index));
    assert_eq!(mem.events().len(), 0);
    let at = ip_init::memory::Addr { addr: 0x40, block: 0 };
    mem.retire(at);
    assert!(!mem.is_live(0));
    assert_eq!(mem.events().len(), 0);
}

#[test]
fn write_slice_and_array() {
    let mut mem: Memory<u16> = Memory::new(0);
    let slot = Uninit::<[u16]>::from_maybe_uninit_slice(&mut mem, 0x100, 3);
    assert_eq!(slot.len(), 3);
    assert!(!slot.is_empty());
    let init = slot.write_slice(&mut mem, &[7, 8, 9]);
    assert_eq!((*init.get(&mem, 0), *init.get(&mem, 1), *init.get(&mem, 2)), (7, 8, 9));
    let slot = Uninit::<[u16]>::from_maybe_uninit_slice(&mut mem, 0x200, 2);
    let init = slot.write_array(&mut mem, [4, 5]);
    assert_eq!((*init.get(&mem, 0), *init.get(&mem, 1)), (4, 5));
    let slot = PinnedUninit::<[u16]>::from_maybe_uninit_slice(&mut mem, 0x300, 2);
    let init = slot.write_array(&mut mem, [1, 2]);
    assert_eq!(init.len(), 2);
    assert!(!init.is_empty());
    let slot = PinnedUninit::<[u16]>::from_maybe_uninit_slice(&mut mem, 0x400, 1);
    let init = slot.write_slice(&mut mem, &[3]);
    assert_eq!(*mem.read(init.as_ptr().first()), 3);
    let slot = PinnedUninit::<u16>::from_maybe_uninit(&mut mem, 0x500);
    let init = slot.write(&mut mem, 6);
    assert_eq!(*init.get(&mem), 6);
    assert_eq!(init.as_non_null_ptr().addr, 0x500);
}

#[test]
fn uninit_iter_hands_out_each_cell_once() {
    let mut mem: Memory<u32> = Memory::new(0);
    let slot = Uninit::<[u32]>::from_maybe_uninit_slice(&mut mem, 0x1000, 5);
    let mut iter = UninitIter::new(slot);
    assert_eq!(iter.size_hint(), (5, Some(5)));
    let first = iter.next().unwrap();
    assert_eq!(first.as_ptr(), Ptr { addr: 0x1000, block: 0, index: 0, shape: Shape::Fixed });
    let last = iter.next_back().unwrap();
    assert_eq!(last.as_ptr(), Ptr { addr: 0x1010, block: 0, index: 4, shape: Shape::Fixed });
    let third = iter.nth(1).unwrap();
    assert_eq!(third.as_ptr().addr, 0x1008);
    assert_eq!(third.as_ptr().index, 2);
    let rest = iter.finish();
    assert_eq!(rest.as_ptr(), Ptr { addr: 0x100c, block: 0, index: 3, shape: Shape::Slice(1) });
    first.write(&mut mem, 1);
    last.write(&mut mem, 5);
    third.write(&mut mem, 3);
    assert!(mem.holds(0, 0) && !mem.holds(0, 1) && mem.holds(0, 2) && !mem.holds(0, 3) && mem.holds(0, 4));
}

#[test]
fn init_iter_destroys_what_is_left() {
    let mut mem: Memory<u32> = Memory::new(0);
    let slot = Uninit::<[u32]>::from_maybe_uninit_slice(&mut mem, 0x1000, 4);
    let init = slot.write_slice(&mut mem, &[10, 11, 12, 13]);
    let mut iter = InitIter::new(init);
    let first = iter.next().unwrap();
    assert_eq!(*first.get(&mem), 10);
    let back = iter.nth_back(0).unwrap();
    assert_eq!(*back.get(&mem), 13);
    assert_eq!(iter.size_hint(), (2, Some(2)));
    iter.discard(&mut mem);
    assert_eq!(
        mem.events(),
        &vec![Event::Destroyed { block: 0, index: 1 }, Event::Destroyed { block: 0, index: 2 }]
    );
    first.destroy(&mut mem);
    back.destroy(&mut mem);
    assert_eq!(mem.events().len(), 4);
    assert_eq!(mem.events()[3], Event::Destroyed { block: 0, index: 3 });
}

#[test]
fn init_iter_gives_back_the_rest() {
    let mut mem: Memory<u32> = Memory::new(0);
    let slot = Uninit::<[u32]>::from_maybe_uninit_slice(&mut mem, 0x1000, 3);
    let init = slot.write_slice(&mut mem, &[1, 2, 3]);
    let mut iter = InitIter::new(init);
    let _ = iter.next();
    let rest = iter.finish();
    assert_eq!(rest.len(), 2);
    assert_eq!(*rest.get(&mem, 0), 2);
    assert_eq!(rest.as_ptr().addr, 0x1004);
}

#[test]
fn pinned_iters_walk_the_same_cells() {
    let mut mem: Memory<u32> = Memory::new(0);
    let slot = PinnedUninit::<[u32]>::from_maybe_uninit_slice(&mut mem, 0x1000, 3);
    let mut iter = PinnedUninitIter::new(slot);
    let a = iter.next().unwrap();
    let c = iter.next_back().unwrap();
    assert_eq!(iter.size_hint(), (1, Some(1)));
    assert!(iter.nth(1).is_none());
    let rest = iter.finish();
    assert!(rest.is_empty());
    let a: PinnedInit<u32> = a.write(&mut mem, 1);
    let c: PinnedInit<u32> = c.write(&mut mem, 3);
    assert_eq!((*a.get(&mem), *c.get(&mem)), (1, 3));
    assert_eq!(c.as_ptr().index, 2);

    let slot = PinnedUninit::<[u32]>::from_maybe_uninit_slice(&mut mem, 0x2000, 3);
    let init = slot.write_slice(&mut mem, &[4, 5, 6]);
    let mut iter = PinnedInitIter::new(init);
    let last = iter.nth_back(0).unwrap();
    assert_eq!(*last.get(&mem), 6);
    let second = iter.nth(1).unwrap();
    assert_eq!(*second.get(&mem), 5);
    assert_eq!(iter.size_hint(), (0, Some(0)));
    assert!(iter.next().is_none());
    iter.discard(&mut mem);
    assert_eq!(mem.events().len(), 0);
}

#[test]
fn bind_narrows_to_a_part() {
    let mut mem: Memory<u32> = Memory::new(0);
    let mut slot = Uninit::<[u32]>::from_maybe_uninit_slice(&mut mem, 0x1000, 4);
    let second = slot.as_ptr().first().add::<u32>(1);
    let part: Uninit<u32> = bind::<[u32], u32>(&mut slot, second);
    assert_eq!(part.as_ptr(), Ptr { addr: 0x1004, block: 0, index: 1, shape: Shape::Fixed });
    let init = part.write(&mut mem, 9);
    assert_eq!(*init.get(&mem), 9);
    assert!(mem.holds(0, 1) && !mem.holds(0, 0));
    let mut pinned = PinnedUninit::new(slot);
    let third = pinned.as_ptr().first().add::<u32>(2);
    let part: PinnedUninit<u32> = bind_pin::<[u32], u32>(&mut pinned, third);
    assert_eq!(part.as_ptr().index, 2);
    assert_eq!(pinned.as_mut_ptr().shape, Shape::Slice(4));
}

#[test]
fn fatal_errors_and_their_messages() {
    let layout = Layout { size: 16, align: 8 };
    assert_eq!(handle(&AllocError::<u8>::Init(3)), Fatal::InitFailed);
    assert_eq!(handle(&AllocError::<u8>::Layout(LayoutError)), Fatal::NoLayout);
    assert_eq!(handle(&AllocError::<u8>::Alloc(layout)), Fatal::OutOfMemory(layout));
    assert_eq!(Fatal::InitFailed.message(), "Failed to initialize value");
    assert_eq!(Fatal::NoLayout.message(), "Could not compute layout for value");
    assert_eq!(Fatal::OutOfMemory(layout).message(), "memory allocation failed");
}
