use ip_init::layout::{is_power_of_two, Layout, LayoutError, SizedLayoutProvider, SliceLayoutProvider};
use ip_init::memory::{Addr, Shape};
use ip_init::traits::LayoutProvider;

#[test]
fn powers_of_two() {
    assert!(!is_power_of_two(0));
    assert!(is_power_of_two(1));
    assert!(is_power_of_two(2));
    assert!(!is_power_of_two(3));
    assert!(is_power_of_two(4096));
    assert!(!is_power_of_two(4097));
    assert!(is_power_of_two(1usize << 63));
    assert!(!is_power_of_two(usize::MAX));
}

#[test]
fn layout_from_size_and_alignment() {
    assert_eq!(Layout::from_size_align(12, 4), Ok(Layout { size: 12, align: 4 }));
    assert_eq!(Layout::from_size_align(0, 1), Ok(Layout { size: 0, align: 1 }));
    assert_eq!(Layout::from_size_align(12, 0), Err(LayoutError));
    assert_eq!(Layout::from_size_align(12, 3), Err(LayoutError));
    let max = isize::MAX as usize;
    assert_eq!(Layout::from_size_align(max, 1), Ok(Layout { size: max, align: 1 }));
    assert_eq!(Layout::from_size_align(max, 2), Err(LayoutError));
    assert_eq!(Layout::from_size_align(max - 1, 2), Ok(Layout { size: max - 1, align: 2 }));
    assert_eq!(Layout::from_size_align(max + 1, 1), Err(LayoutError));
}

#[test]
fn layout_of_types_and_arrays() {
    let l = Layout::new::<u32>();
    assert_eq!((l.size(), l.align()), (4, 4));
    let l = Layout::new::<()>();
    assert_eq!((l.size(), l.align()), (0, 1));
    assert_eq!(Layout::array::<u64>(5), Ok(Layout { size: 40, align: 8 }));
    assert_eq!(Layout::array::<u64>(0), Ok(Layout { size: 0, align: 8 }));
    assert_eq!(Layout::array::<()>(usize::MAX), Ok(Layout { size: 0, align: 1 }));
    assert_eq!(Layout::array::<u64>(usize::MAX), Err(LayoutError));
    assert_eq!(Layout::array::<u64>(usize::MAX / 8), Err(LayoutError));
    assert_eq!(Layout::array::<u8>(isize::MAX as usize), Ok(Layout { size: isize::MAX as usize, align: 1 }));
    assert_eq!(Layout::array::<u8>(isize::MAX as usize + 1), Err(LayoutError));
}

#[test]
fn providers_keep_the_address() {
    let addr = Addr { addr: 0x1000, block: 3 };
    let sized = <SizedLayoutProvider as LayoutProvider<u32>>::cast(&SizedLayoutProvider, addr);
    assert_eq!((sized.addr, sized.block, sized.index, sized.shape), (0x1000, 3, 0, Shape::Fixed));
    let sized = <SizedLayoutProvider as LayoutProvider<u32>>::cast_nonnull(&SizedLayoutProvider, addr);
    assert_eq!(sized.addr, 0x1000);
    let slice = <SliceLayoutProvider as LayoutProvider<[u32]>>::cast(&SliceLayoutProvider(7), addr);
    assert_eq!((slice.addr, slice.block, slice.index, slice.shape), (0x1000, 3, 0, Shape::Slice(7)));
    assert_eq!(
        <SizedLayoutProvider as LayoutProvider<u32>>::layout_for(&SizedLayoutProvider),
        Ok(Layout { size: 4, align: 4 })
    );
    assert_eq!(
        <SliceLayoutProvider as LayoutProvider<[u32]>>::layout_for(&SliceLayoutProvider(7)),
        Ok(Layout { size: 28, align: 4 })
    );
    assert_eq!(
        <SliceLayoutProvider as LayoutProvider<[u32]>>::layout_for(&SliceLayoutProvider(usize::MAX)),
        Err(LayoutError)
    );
}
