use chip8::keys::Keys;
use chip8::mem::Memory;
use chip8::screen_buffer::ScreenBuffer;
use chip8::Chip8Error;

#[test]
fn keys_start_released() {
    let k = Keys::new();
    for i in 0..16u8 {
        assert!(!k.get(i));
    }
}

#[test]
fn keys_set_get_unset() {
    let mut k = Keys::new();
    k.set(5);
    assert!(k.get(5));
    for i in 0..16u8 {
        if i != 5 {
            assert!(!k.get(i));
        }
    }
    k.set(0);
    k.set(15);
    assert!(k.get(0) && k.get(5) && k.get(15));
    k.unset(5);
    assert!(!k.get(5));
    assert!(k.get(0) && k.get(15));
}

#[test]
fn memory_starts_zeroed() {
    let m = Memory::new();
    assert_eq!(m.get(0), 0);
    assert_eq!(m.get(0x200), 0);
    assert_eq!(m.get(4095), 0);
}

#[test]
fn memory_set_get() {
    let mut m = Memory::new();
    m.set(0x300, 0xAB);
    assert_eq!(m.get(0x300), 0xAB);
    assert_eq!(m.get(0x301), 0);
}

#[test]
fn memory_load_data_at_offset() {
    let mut m = Memory::new();
    m.load_data(&vec![1, 2, 3], 0x200).unwrap();
    assert_eq!(m.get(0x1FF), 0);
    assert_eq!(m.get(0x200), 1);
    assert_eq!(m.get(0x201), 2);
    assert_eq!(m.get(0x202), 3);
    assert_eq!(m.get(0x203), 0);
}

#[test]
fn memory_load_data_to_the_last_byte() {
    let mut m = Memory::new();
    m.load_data(&vec![7, 8], 4094).unwrap();
    assert_eq!(m.get(4094), 7);
    assert_eq!(m.get(4095), 8);
}

#[test]
fn memory_load_data_rejects_overflow() {
    let mut m = Memory::new();
    assert_eq!(m.load_data(&vec![7, 8], 4095), Err(Chip8Error::LoadError));
    assert_eq!(m.get(4095), 0);
    let big = vec![1u8; 4097];
    assert_eq!(m.load_data(&big, 0), Err(Chip8Error::LoadError));
}

#[test]
fn screen_starts_clear() {
    let s = ScreenBuffer::new(64, 32);
    assert_eq!(s.width(), 64);
    assert_eq!(s.height(), 32);
    for x in 0..64 {
        for y in 0..32 {
            assert!(!s.get_pixel(x, y));
        }
    }
}

#[test]
fn screen_clear_turns_everything_off() {
    let mut s = ScreenBuffer::new(64, 32);
    s.xor(3, 4);
    s.xor(63, 31);
    s.clear();
    for x in 0..64 {
        for y in 0..32 {
            assert!(!s.get_pixel(x, y));
        }
    }
}

#[test]
fn screen_xor_reports_previous_value() {
    let mut s = ScreenBuffer::new(64, 32);
    assert_eq!(s.xor(3, 4), false);
    assert!(s.get_pixel(3, 4));
    assert!(!s.get_pixel(4, 3));
    assert_eq!(s.xor(3, 4), true);
    assert!(!s.get_pixel(3, 4));
}

#[test]
fn screen_xor_twice_restores() {
    let mut s = ScreenBuffer::new(64, 32);
    s.xor(10, 20);
    let after_first = s.get_pixel(10, 20);
    let second = s.xor(10, 20);
    assert_eq!(second, after_first);
    assert!(!s.get_pixel(10, 20));
    for x in 0..64 {
        for y in 0..32 {
            assert!(!s.get_pixel(x, y));
        }
    }
}

#[test]
fn screen_distinct_pixels_do_not_alias() {
    let mut s = ScreenBuffer::new(64, 32);
    s.xor(1, 0);
    assert!(s.get_pixel(1, 0));
    assert!(!s.get_pixel(0, 1));
    assert!(!s.get_pixel(0, 0));
}
