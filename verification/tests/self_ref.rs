use ip_init::memory::{Memory, ARENA_BASE};
use ip_init::self_ref::SelfRef;

#[test]
fn test() {
    let mut mem: Memory<SelfRef> = Memory::new(1024);
    let this = SelfRef::new(&mut mem, 10);

    let a = this.get(&mem).get(&mem);
    SelfRef::set_second(&mut mem, this.as_ptr());
    let b = this.get(&mem).get(&mem);
    SelfRef::set_first(&mut mem, this.as_ptr());
    let c = this.get(&mem).get(&mem);
    assert_eq!(a, 10);
    assert_eq!(b, 0);
    assert_eq!(c, 10);
}

#[test]
fn many_count_upwards_and_point_to_themselves() {
    let mut mem: Memory<SelfRef> = Memory::new(4096);
    let all = SelfRef::many(&mut mem, 7, 4);
    let ptr = all.as_ptr();
    assert_eq!(ptr.addr, ARENA_BASE);
    assert_eq!(ptr.shape.len(), 4);
    for k in 0..4 {
        let cell = ptr.first().add::<SelfRef>(k);
        let value = mem.read(cell);
        assert_eq!(value.get(&mem), 7 + k as i32);
        assert_eq!(cell.addr, ARENA_BASE + k * std::mem::size_of::<SelfRef>());
    }
    let third = ptr.first().add::<SelfRef>(2);
    SelfRef::set_second(&mut mem, third);
    assert_eq!(mem.read(third).get(&mem), 0);
    assert_eq!(mem.read(ptr.first().add::<SelfRef>(1)).get(&mem), 8);
    all.release(&mut mem);
    assert_eq!(mem.events().len(), 6);
    assert!(!mem.is_live(0));
}
