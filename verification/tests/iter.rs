use ip_init::iter::RawIter;
use ip_init::memory::{Memory, Ptr};
use ip_init::ptr::Uninit;

/// The library's iterator behind std's iterator traits, so that the
/// adaptors of std drive it.
struct Walk<T>(RawIter<T>);

impl<T> Iterator for Walk<T> {
    type Item = Ptr;

    fn next(&mut self) -> Option<Ptr> {
        self.0.next()
    }

    fn nth(&mut self, n: usize) -> Option<Ptr> {
        self.0.nth(n)
    }

    fn size_hint(&self) -> (usize, Option<usize>) {
        self.0.size_hint()
    }

    fn count(self) -> usize {
        self.0.count()
    }

    fn last(self) -> Option<Ptr> {
        self.0.last()
    }
}

impl<T> DoubleEndedIterator for Walk<T> {
    fn next_back(&mut self) -> Option<Ptr> {
        self.0.next_back()
    }

    fn nth_back(&mut self, n: usize) -> Option<Ptr> {
        self.0.nth_back(n)
    }
}

impl<T> ExactSizeIterator for Walk<T> {}

/// Puts `values` into a buffer of their own and returns the pointer to
/// the slice.
fn place<T: Copy>(mem: &mut Memory<T>, values: &[T]) -> Ptr {
    let slot = Uninit::<[T]>::from_maybe_uninit_slice(mem, 0x7000, values.len());
    let init = slot.write_slice(mem, values);
    init.into_raw()
}

#[test]
fn test_simple() {
    let array = [0, 1, 2, 3, 4, 5, 6, 7, 8, 9, 10, 11, 12, 13, 14, 15, 16];
    let mut mem: Memory<usize> = Memory::new(0);
    let ptr = place(&mut mem, &array);

    let iter = Walk(RawIter::<usize>::new(ptr));

    assert_eq!(iter.len(), array.len());

    for (i, j) in iter.enumerate() {
        assert_eq!(i, *mem.read(j))
    }
}

#[test]
fn test_nth() {
    let array = [0, 1, 2, 3, 4, 5, 6, 7, 8, 9, 10, 11, 12, 13, 14, 15, 16];
    let mut mem: Memory<usize> = Memory::new(0);
    let ptr = place(&mut mem, &array);

    let iter = Walk(RawIter::<usize>::new(ptr));

    assert_eq!(iter.len(), array.len());

    for (i, j) in iter.step_by(3).enumerate() {
        assert_eq!(3 * i, *mem.read(j))
    }
}

#[test]
fn test_zero_sized() {
    let array = [(); 17];
    let mut mem: Memory<()> = Memory::new(0);
    let ptr = place(&mut mem, &array);

    let iter = Walk(RawIter::<()>::new(ptr));

    assert_eq!(iter.len(), array.len());

    let count = iter.fold(0, |acc, _| acc + 1);
    assert_eq!(count, array.len());
}

#[test]
fn test_zero_sized_nth() {
    let array = [(); 17];
    let mut mem: Memory<()> = Memory::new(0);
    let ptr = place(&mut mem, &array);

    let iter = Walk(RawIter::<()>::new(ptr));

    assert_eq!(iter.len(), array.len());

    let count = iter.step_by(3).fold(0, |acc, _| acc + 1);
    // length / 3 round up
    assert_eq!(count, (array.len() + 2) / 3);
}

#[test]
fn test_rev_simple() {
    let array = [0, 1, 2, 3, 4, 5, 6, 7, 8, 9, 10, 11, 12, 13, 14, 15, 16];
    let mut mem: Memory<usize> = Memory::new(0);
    let ptr = place(&mut mem, &array);

    let iter = Walk(RawIter::<usize>::new(ptr));

    assert_eq!(iter.len(), array.len());

    for (i, j) in iter.enumerate().rev() {
        assert_eq!(i, *mem.read(j))
    }
}

#[test]
fn test_rev_nth() {
    let array = [0, 1, 2, 3, 4, 5, 6, 7, 8, 9, 10, 11, 12, 13, 14, 15, 16];
    let mut mem: Memory<usize> = Memory::new(0);
    let ptr = place(&mut mem, &array);

    let iter = Walk(RawIter::<usize>::new(ptr));

    assert_eq!(iter.len(), array.len());

    for (i, j) in iter.step_by(3).enumerate().rev() {
        assert_eq!(3 * i, *mem.read(j))
    }
}

#[test]
fn test_rev_zero_sized() {
    let array = [(); 17];
    let mut mem: Memory<()> = Memory::new(0);
    let ptr = place(&mut mem, &array);

    let iter = Walk(RawIter::<()>::new(ptr));

    assert_eq!(iter.len(), array.len());

    let count = iter.rev().fold(0, |acc, _| acc + 1);
    assert_eq!(count, array.len());
}

#[test]
fn test_rev_zero_sized_nth() {
    let array = [(); 17];
    let mut mem: Memory<()> = Memory::new(0);
    let ptr = place(&mut mem, &array);

    let iter = Walk(RawIter::<()>::new(ptr));

    assert_eq!(iter.len(), array.len());

    let count = iter.rev().step_by(3).fold(0, |acc, _| acc + 1);
    // length / 3 round up
    assert_eq!(count, (array.len() + 2) / 3);
}

#[test]
fn nth_skips_that_many() {
    let array = [10usize, 11, 12, 13, 14];
    let mut mem: Memory<usize> = Memory::new(0);
    let ptr = place(&mut mem, &array);
    let mut iter = RawIter::<usize>::new(ptr);
    let second = iter.nth(1).unwrap();
    assert_eq!(*mem.read(second), 11);
    assert_eq!(second.addr, 0x7000 + std::mem::size_of::<usize>());
    assert_eq!(second.index, 1);
    assert_eq!(iter.len(), 3);
    let last = iter.nth_back(0).unwrap();
    assert_eq!(*mem.read(last), 14);
    assert_eq!(iter.len(), 2);
    assert!(iter.nth(2).is_none());
    assert_eq!(iter.len(), 0);
    assert!(iter.next().is_none());
    assert!(iter.next_back().is_none());
}

#[test]
fn nth_of_zero_sized_past_the_end_changes_nothing() {
    let array = [(); 4];
    let mut mem: Memory<()> = Memory::new(0);
    let ptr = place(&mut mem, &array);
    let mut iter = RawIter::<()>::new(ptr);
    assert!(iter.nth(5).is_none());
    assert_eq!(iter.len(), 4);
    assert!(iter.nth_back(5).is_none());
    assert_eq!(iter.len(), 4);
    assert!(iter.nth(4).is_none());
    assert_eq!(iter.len(), 0);
}
