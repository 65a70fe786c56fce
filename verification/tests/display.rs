use nupu8::display::is_lit;
use nupu8::{Cpu, NupuDisplay, Port};

#[test]
fn new_display_is_blank() {
    let d = NupuDisplay::new();
    assert!(d.vram.iter().all(|row| row.iter().all(|&b| b == 0)));
    assert_eq!((d.x_ptr, d.page_ptr), (0, 0));
}

#[test]
fn data_port_draws_and_advances() {
    let mut d = NupuDisplay::new();
    let mut cpu = Cpu::default();
    cpu.ports[0x10] = Port { data: 5, dirty: true };
    cpu.ports[0x11] = Port { data: 2, dirty: true };
    cpu.ports[0x12] = Port { data: 0xAA, dirty: true };
    d.update(&mut cpu.ports);
    assert_eq!(d.vram[2][5], 0xAA);
    assert_eq!(d.x_ptr, 6);
    assert_eq!(d.page_ptr, 2);
    assert!(!cpu.ports[0x10].dirty && !cpu.ports[0x11].dirty && !cpu.ports[0x12].dirty);
    assert_eq!(cpu.ports[0x12].data, 0xAA);
}

#[test]
fn positions_wrap() {
    let mut d = NupuDisplay::new();
    let mut ports = [Port { data: 0, dirty: false }; 256];
    ports[0x10] = Port { data: 200, dirty: true };
    ports[0x11] = Port { data: 9, dirty: true };
    d.update(&mut ports);
    assert_eq!((d.x_ptr, d.page_ptr), (72, 1));
    ports[0x10] = Port { data: 127, dirty: true };
    ports[0x12] = Port { data: 1, dirty: true };
    d.update(&mut ports);
    assert_eq!(d.vram[1][127], 1);
    assert_eq!(d.x_ptr, 0);
}

#[test]
fn clean_ports_change_nothing() {
    let mut d = NupuDisplay::new();
    let mut ports = [Port { data: 33, dirty: false }; 256];
    d.update(&mut ports);
    assert!(d.vram.iter().all(|row| row.iter().all(|&b| b == 0)));
    assert_eq!((d.x_ptr, d.page_ptr), (0, 0));
}

#[test]
fn out_of_range_position_is_set_by_the_ports() {
    let mut d = NupuDisplay::new();
    d.x_ptr = 200;
    d.page_ptr = 20;
    let mut ports = [Port { data: 0, dirty: false }; 256];
    // Nothing drawn: the position is left alone.
    d.update(&mut ports);
    assert_eq!((d.x_ptr, d.page_ptr), (200, 20));
    ports[0x10] = Port { data: 3, dirty: true };
    ports[0x11] = Port { data: 4, dirty: true };
    ports[0x12] = Port { data: 0x5A, dirty: true };
    d.update(&mut ports);
    assert_eq!(d.vram[4][3], 0x5A);
    assert_eq!((d.x_ptr, d.page_ptr), (4, 4));
}

#[test]
fn pixels_of_the_framebuffer() {
    let mut d = NupuDisplay::new();
    d.vram[2][7] = 0b1000_0001;
    assert!(is_lit(&d.vram, 7, 16));
    assert!(!is_lit(&d.vram, 7, 17));
    assert!(is_lit(&d.vram, 7, 23));
    assert!(!is_lit(&d.vram, 8, 16));
    let lit = (0..64).flat_map(|r| (0..128).map(move |x| (x, r))).filter(|&(x, r)| is_lit(&d.vram, x, r)).count();
    assert_eq!(lit, 2);
}
