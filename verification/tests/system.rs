use pixie::agent::{get_cpu_model, resets_after, Action, RunLoop, RunStep};
use pixie::boot::{add_unique, best_mode, firmware_mac_usable, framebuffer_or_vga, score_mode, DebugPause, PauseStep};
use pixie::boot_options::{
    boot_variable_name, decode_current, decode_order, description_end, encode_order, install_in_order,
    promote_second, BootOptions,
};
use pixie::error::Error;
use pixie::frames::{alloc_contiguous, alloc_page, free_contiguous, stats, FrameBitmap, PAGE_SIZE};
use pixie::heap::HeapGrowth;
use pixie::idt::{exception_message, exception_name, reports_fault_address, IdtEntry};
use pixie::input::Key;
use pixie::logger::{level_bold, level_color, Level};
use pixie::mpsc::{Channel, RecvPoll};
use pixie::raw_fb::{get_glyph, Glyph, RawFb, StackWriter, COLOR_BG_RED, COLOR_WHITE, COLOR_YELLOW};
use pixie::register::{FormStep, RegisterForm, Station};
use pixie::speed::NetSpeed;
use pixie::timer::{Timer, Watchdog};
use pixie::timers::{interrupt_wake_due, wake_time, TimedWaits};
use pixie::web::{liveness, ping_age, split_image_name, Liveness};
use pixie::tasks::{elapsed_micros, panel_columns, roll_over, sort_by_recent_use, task_at, usage_color, TaskUsage};
use pixie::ui::{
    color_to_rgb, fault_screen_columns, rgb_to_vga, update_fault_countdown, vga_fault_screen, Color, DrawArea,
    ScreenChar,
};

fn bitmap_with_free(pages: usize) -> FrameBitmap {
    let mut fa = FrameBitmap::new(4);
    fa.mark_free(0, pages);
    fa
}

#[test]
fn alloc_then_free_restores_the_bitmap() {
    let mut fa = bitmap_with_free(100);
    let a = alloc_contiguous(&mut fa, 10).unwrap();
    assert_eq!(a % PAGE_SIZE, 0);
    let b = alloc_contiguous(&mut fa, 5).unwrap();
    assert!(b >= a + 10 * PAGE_SIZE || a >= b + 5 * PAGE_SIZE);
    free_contiguous(&mut fa, b, 5);
    assert_eq!(alloc_contiguous(&mut fa, 5), Some(b));
    assert!(alloc_contiguous(&mut fa, 1000).is_none());
    assert!(alloc_page(&mut fa).is_some());
    let s = stats(&fa, 100 * PAGE_SIZE);
    assert_eq!(s.used, 16 * PAGE_SIZE);
    assert_eq!(s.free, 84 * PAGE_SIZE);
}

#[test]
fn heap_growth_backs_off_then_doubles() {
    let mut fa = bitmap_with_free(20);
    let mut h = HeapGrowth::new(1 << 20);
    // 256 pages are not there; it halves down to 16 pages (64 KiB)
    let (addr, pages) = h.grow(&mut fa, 10_000).unwrap();
    assert_eq!(addr % PAGE_SIZE, 0);
    assert_eq!(pages, 16);
    assert_eq!(h.next_block_size, 1 << 17);
    assert!(h.grow(&mut fa, 1 << 16).is_none());
}

#[test]
fn graphics_mode_scores() {
    assert_eq!(score_mode(320, 200, None), -1_000_000);
    assert_eq!(score_mode(768, 1024, None), -500_000);
    assert_eq!(score_mode(1024, 768, None), 1_000_000 + 786_432);
    assert_eq!(score_mode(1024, 768, Some((1024, 768))), 1_001_000 + 786_432);
    assert_eq!(score_mode(2560, 1440, None), 500_000 - 36_864);
    let modes = vec![(640, 480), (1920, 1080), (320, 200), (1920, 1080), (2560, 1440)];
    assert_eq!(best_mode(&modes, None), Some(3));
    assert_eq!(best_mode(&vec![(320, 200)], None), None);
}

#[test]
fn graphics_mode_scores_for_very_large_modes() {
    let w: usize = 1 << 33;
    let h: usize = 1 << 30;
    assert_eq!(score_mode(w, h, None), 500_000 - ((1u64 << 63) / 100) as i64);
    let modes = vec![(w, h), (3840, 2160), (2560, 1440)];
    assert_eq!(best_mode(&modes, None), Some(2));
    assert_eq!(best_mode(&vec![(1024, 768), (w, h)], None), Some(0));
}

#[test]
fn start_up_choices() {
    assert_eq!(framebuffer_or_vga(None), (0xB8000, 4000, 80, 25, 80));
    assert_eq!(framebuffer_or_vga(Some((1, 2, 3, 4, 5))), (1, 2, 3, 4, 5));
    assert!(firmware_mac_usable(&[2, 0, 0, 0, 0, 1]));
    assert!(!firmware_mac_usable(&[0; 6]));
    assert!(!firmware_mac_usable(&[1, 0, 0, 0, 0, 0]));
    let mut hs = vec![1, 2];
    add_unique(&mut hs, 2);
    add_unique(&mut hs, 3);
    assert_eq!(hs, vec![1, 2, 3]);
}

#[test]
fn debug_pause_counts_down() {
    let mut p = DebugPause::new(2);
    assert_eq!(p.tick(None), PauseStep::Wait);
    assert_eq!(p.tick(Some(true)), PauseStep::Wait);
    assert!(p.paused);
    assert_eq!(p.tick(None), PauseStep::Wait);
    assert_eq!(p.remaining, 1);
    assert_eq!(p.tick(Some(true)), PauseStep::Done);
    let mut q = DebugPause::new(1);
    assert_eq!(q.tick(None), PauseStep::Wait);
    assert_eq!(q.tick(None), PauseStep::Done);
    assert_eq!(DebugPause::new(5).tick(Some(false)), PauseStep::Done);
}

#[test]
fn reboot_target_follows_current_option() {
    let bo = BootOptions { current: 1, order: vec![3, 1, 0x3000, 2, 5] };
    assert_eq!(bo.reboot_target(), Some(2));
    let bo = BootOptions { current: 9, order: vec![0x2001, 4] };
    assert_eq!(bo.reboot_target(), Some(4));
    let bo = BootOptions { current: 4, order: vec![0x2001, 4] };
    assert_eq!(bo.reboot_target(), None);
}

#[test]
fn boot_order_round_trip() {
    let order = vec![0x0001u16, 0x2003, 0xABCD];
    let bytes = encode_order(&order);
    assert_eq!(bytes, vec![1, 0, 3, 0x20, 0xCD, 0xAB]);
    assert_eq!(decode_order(&bytes), order);
    assert_eq!(decode_current(&[0x34, 0x12]), 0x1234);
}

#[test]
fn boot_order_edits() {
    assert_eq!(promote_second(&vec![0, 7, 2, 7], 7), vec![0, 7, 2]);
    assert_eq!(promote_second(&vec![5, 6], 9), vec![5, 9, 6]);
    assert_eq!(install_in_order(&vec![1, 2, 3], Some(2), 9), vec![1, 9, 3]);
    assert_eq!(install_in_order(&vec![1, 2], None, 9), vec![1, 2, 9]);
    assert_eq!(boot_variable_name(0x00AF), b"Boot00AF".to_vec());
}

#[test]
fn boot_entry_description_end() {
    let mut e = vec![0u8; 6];
    e.extend_from_slice(&[b'W', 0, b'i', 0, 0, 0, 9, 9]);
    assert_eq!(description_end(&e), Some(6));
    assert_eq!(description_end(&[0u8, 0, 0, 0, 0, 0, 1, 0]), None);
}

#[test]
fn run_loop_waits_then_performs() {
    let mut l = RunLoop::new();
    assert!(l.log_request());
    assert_eq!(l.step(Some(Action::Wait)), RunStep::Wait { announce: true });
    assert_eq!(l.step(Some(Action::Wait)), RunStep::Wait { announce: false });
    assert!(!l.log_request());
    assert_eq!(l.step(None), RunStep::Retry);
    assert_eq!(l.step(Some(Action::Store)), RunStep::Perform(Action::Store));
    assert_eq!(l.step(Some(Action::Wait)), RunStep::Wait { announce: true });
    assert!(resets_after(Action::Restart));
    assert!(!resets_after(Action::Boot));
}

#[test]
fn cpu_brand_string_is_trimmed() {
    let mut regs = [0u32; 12];
    regs[0] = u32::from_le_bytes(*b"Fake");
    regs[1] = u32::from_le_bytes(*b" CPU");
    assert_eq!(get_cpu_model(&regs), b"Fake CPU".to_vec());
}

fn form(group: &str, image: &str) -> RegisterForm {
    RegisterForm {
        station: Station { group: group.to_string(), row: 0, col: 255, image: image.to_string() },
        selected: 0,
    }
}

#[test]
fn register_form_cycles_values() {
    let groups = vec!["a".to_string(), "b".to_string(), "c".to_string()];
    let images = vec!["x".to_string(), "y".to_string()];
    let mut f = form("a", "y");
    f.handle_key(Key::Left, &groups, &images).unwrap();
    assert_eq!(f.station.group, "c");
    f.handle_key(Key::Right, &groups, &images).unwrap();
    assert_eq!(f.station.group, "a");
    f.handle_key(Key::Down, &groups, &images).unwrap();
    f.handle_key(Key::Left, &groups, &images).unwrap();
    assert_eq!(f.station.row, 255);
    f.handle_key(Key::Down, &groups, &images).unwrap();
    f.handle_key(Key::Right, &groups, &images).unwrap();
    assert_eq!(f.station.col, 0);
    f.handle_key(Key::Down, &groups, &images).unwrap();
    f.handle_key(Key::Down, &groups, &images).unwrap();
    assert_eq!(f.selected, 3);
    f.handle_key(Key::Right, &groups, &images).unwrap();
    assert_eq!(f.station.image, "x");
    f.handle_key(Key::Up, &groups, &images).unwrap();
    assert_eq!(f.selected, 2);
    assert_eq!(f.handle_key(Key::Enter, &groups, &images).unwrap(), FormStep::Submit);
}

#[test]
fn register_form_rejects_unknown_image() {
    let mut f = form("a", "z");
    f.selected = 3;
    let r: Result<FormStep, Error> = f.handle_key(Key::Left, &vec![], &vec!["x".to_string()]);
    assert!(r.is_err());
    let fresh = RegisterForm::new();
    assert_eq!(fresh.selected, 0);
}

#[test]
fn ui_colors_and_areas() {
    for c in [Color::Black, Color::Red, Color::Yellow, Color::White, Color::Cyan] {
        assert_eq!(rgb_to_vga(color_to_rgb(c)), pixie::ui::color_to_vga(c));
    }
    let mut area = DrawArea::logs(10, 20);
    assert_eq!(area.size(), (7, pixie::ui::LOG_HEIGHT));
    let mut back = vec![ScreenChar::blank(); 10 * 20];
    area.write_with_color(&mut back, 10, &"hello world".chars().collect(), Color::Green, Color::Black);
    assert_eq!(area.pos.0, 4);
    let line = update_fault_countdown(25, 80);
    assert_eq!(&line.text[..16], b"Rebooting in 25 ");
    assert_eq!(line.col, 8);
    assert_eq!((line.row, line.fg, line.bg), (12, 0xFFFF_FFFF, 0x00AA_0000));
    let line = update_fault_countdown(7, 10);
    assert_eq!(&line.text[13..15], b" 7");
    assert_eq!(line.col, 0);
}

#[test]
fn stack_writer_truncates() {
    let mut w = StackWriter::<4>::new();
    w.write_str("ab");
    w.write_str("cdef");
    assert_eq!(w.as_str(), "abcd");
    w.clear();
    assert_eq!(w.as_str(), "");
    assert!(matches!(get_glyph('A'), Glyph::Table(_)));
}

#[test]
fn timer_and_watchdog() {
    let t = Timer::calibrate(0, 0, 60_000_000);
    assert_eq!(t.ticks_per_micro(), 3000);
    assert_eq!(t.micros(60_000_000 + 9000), 3);
    let t = Timer::calibrate(2400, 0, 1);
    assert_eq!(t.ticks_per_micro(), 2400);
    let mut w = Watchdog { last_heartbeat: 0 };
    assert!(!w.check_hang(1_000_000_000));
    w.init(1);
    assert!(w.check_hang(300_000_002));
    w.pet(300_000_000);
    assert!(!w.check_hang(300_000_002));
}

#[test]
fn net_speed_rate() {
    let mut s = NetSpeed::new();
    s.add_bytes(1000);
    s.update_speed(500_000);
    assert_eq!(s.bytes_per_second(), 2000);
    s.update_speed(500_000);
    assert_eq!(s.bytes_per_second(), 0);
}

#[test]
fn idt_handler_and_exception_names() {
    let mut e = IdtEntry::empty();
    e.set_handler(0x1234_5678_9abc_def0);
    assert_eq!(e.offset_low, 0xdef0);
    assert_eq!(e.offset_mid, 0x9abc);
    assert_eq!(e.offset_high, 0x1234_5678);
    assert_eq!(exception_name(14), "Page Fault (#PF)");
    assert_eq!(exception_name(9), "Unknown CPU Exception");
    assert!(reports_fault_address(14));
}

#[test]
fn log_levels() {
    assert_eq!(level_color(Level::Warn), Color::Yellow);
    assert_eq!(level_color(Level::Trace), Color::Cyan);
    assert!(level_bold(Level::Error));
    assert!(!level_bold(Level::Info));
}

#[test]
fn bounded_channel() {
    let mut ch: Channel<u32> = Channel::channel(2);
    assert!(ch.try_send(1).is_ok());
    assert!(ch.try_send(2).is_ok());
    assert_eq!(ch.try_send(3), Err(3));
    assert!(matches!(ch.try_recv(), RecvPoll::Item(1)));
    ch.drop_sender();
    assert!(matches!(ch.try_recv(), RecvPoll::Item(2)));
    assert!(matches!(ch.try_recv(), RecvPoll::Closed));
}

#[test]
fn error_message() {
    let e = Error::msg("boom".to_string());
    assert_eq!(e.0, "boom");
}

fn usage(id: usize, micros: u64, last_micros: u64, done: bool) -> TaskUsage {
    TaskUsage { id, micros, last_micros, done }
}

#[test]
fn task_panel_colors_follow_cpu_share() {
    assert_eq!(usage_color(50, 100), Color::Red);
    assert_eq!(usage_color(49, 100), Color::Yellow);
    assert_eq!(usage_color(10, 100), Color::Yellow);
    assert_eq!(usage_color(9, 100), Color::White);
    assert_eq!(usage_color(0, 1), Color::White);
    assert_eq!(usage_color(u64::MAX, u64::MAX), Color::Red);
    assert_eq!(elapsed_micros(5, 10), 1);
    assert_eq!(elapsed_micros(10, 10), 1);
    assert_eq!(elapsed_micros(10, 4), 6);
}

#[test]
fn task_panel_lists_busiest_first_then_rolls_over() {
    let tasks = vec![usage(0, 105, 100, false), usage(1, 40, 20, true), usage(2, 30, 20, false)];
    let sorted = sort_by_recent_use(tasks);
    let ids: Vec<usize> = sorted.iter().map(|t| t.id).collect();
    assert_eq!(ids, vec![1, 2, 0]);
    let next = roll_over(&sorted);
    assert_eq!(next, vec![usage(2, 30, 30, false), usage(0, 105, 105, false)]);
    assert_eq!(panel_columns(71), 2);
    assert_eq!(task_at(1, 2, 7, 10), Some(9));
    assert_eq!(task_at(1, 3, 7, 10), None);
    assert_eq!(task_at(usize::MAX, 2, 2, 10), None);
}

#[test]
fn vga_fault_screen_centres_banner_and_reason() {
    let cells = vga_fault_screen("boom");
    assert_eq!(cells.len(), 2000);
    assert_eq!(cells[0], 0x4F20);
    assert_eq!(cells[4 * 80 + 4], 0x4F20);
    assert_eq!(cells[4 * 80 + 5], 0x4F00 | b'=' as u16);
    assert_eq!(cells[4 * 80 + 5 + 24], 0x4F00 | b'S' as u16);
    assert_eq!(cells[4 * 80 + 74], 0x4F20);
    assert_eq!(cells[8 * 80 + 37], 0x4F20);
    assert_eq!(cells[8 * 80 + 38], 0x4F00 | b'b' as u16);
    assert_eq!(cells[8 * 80 + 41], 0x4F00 | b'm' as u16);
    assert_eq!(cells[8 * 80 + 42], 0x4F20);
    let accented = vga_fault_screen("\u{e9}");
    assert_eq!(accented[8 * 80 + 39], 0x4F00 | b'?' as u16);
    let long = "x".repeat(100);
    let cells = vga_fault_screen(&long);
    assert_eq!(cells[8 * 80], 0x4F00 | b'x' as u16);
    assert_eq!(cells[8 * 80 + 79], 0x4F00 | b'x' as u16);
    assert_eq!(cells[9 * 80], 0x4F20);
    assert_eq!(fault_screen_columns(100, 10), (15, 45));
    assert_eq!(fault_screen_columns(40, 50), (0, 0));
}

#[test]
fn exception_reports_match_the_fault_format() {
    let pf = exception_message(14, 2, 0xFFFF_8000_0000_1234, 0xDEAD);
    assert_eq!(
        String::from_utf8(pf).unwrap(),
        format!(
            "CPU Exception {} ({}), error code: 0x{:X}, RIP: 0x{:016X}, CR2: 0x{:016X}",
            14, "Page Fault (#PF)", 2u64, 0xFFFF_8000_0000_1234u64, 0xDEADu64
        )
    );
    let de = exception_message(0, 0, 0x40_1000, 0xDEAD);
    assert_eq!(
        String::from_utf8(de).unwrap(),
        "CPU Exception 0 (Division by Zero (#DE)), error code: 0x0, RIP: 0x0000000000401000"
    );
    let gp = exception_message(13, 0xABCDEF, u64::MAX, 0);
    assert_eq!(
        String::from_utf8(gp).unwrap(),
        "CPU Exception 13 (General Protection Fault (#GP)), error code: 0xABCDEF, RIP: 0xFFFFFFFFFFFFFFFF"
    );
    let unknown = exception_message(123456789, 16, 0, 0);
    assert_eq!(
        String::from_utf8(unknown).unwrap(),
        "CPU Exception 123456789 (Unknown CPU Exception), error code: 0x10, RIP: 0x0000000000000000"
    );
}

#[test]
fn installed_image_becomes_reboot_target() {
    let before = BootOptions { current: 5, order: vec![0x3001, 5, 0x2001, 1, 2] };
    let target = before.reboot_target();
    assert_eq!(target, Some(1));
    let order = install_in_order(&before.order, target, 7);
    assert_eq!(order, vec![0x3001, 5, 0x2001, 7, 2]);
    assert_eq!(BootOptions { current: 5, order }.reboot_target(), Some(7));

    let no_os = BootOptions { current: 5, order: vec![5, 0x2001] };
    assert_eq!(no_os.reboot_target(), None);
    let order = install_in_order(&no_os.order, None, 7);
    assert_eq!(BootOptions { current: 5, order }.reboot_target(), Some(7));

    let order = promote_second(&vec![5, 3, 7, 4], 7);
    assert_eq!(order, vec![5, 7, 3, 4]);
    assert_eq!(BootOptions { current: 5, order }.reboot_target(), Some(7));
}

#[test]
fn drawing_stays_inside_its_area() {
    let dot = ScreenChar { c: '.', fg: Color::White, bg: Color::Black };
    let mut back = vec![dot; 16];
    let mut area = DrawArea { offset: (1, 1), size: (2, 2), pos: (0, 0), scroll: true };
    area.write_with_color(&mut back, 4, &"abcdefg".chars().collect(), Color::Green, Color::Black);
    let inside = [5usize, 6, 9, 10];
    for (i, cell) in back.iter().enumerate() {
        if !inside.contains(&i) {
            assert_eq!(*cell, dot, "cell {} outside the area changed", i);
        }
    }
    let text: String = inside.iter().map(|&i| back[i].c).collect();
    assert_eq!(text, "efg ");
    assert_eq!(area.pos, (1, 1));
}

#[test]
fn timer_never_runs_backwards() {
    let t = Timer::calibrate(1000, 0, 5_000);
    let readings = [-10_000i64, -3_000, 4_000, 4_999, 5_000, 5_999, 6_000, 1_000_000];
    for w in readings.windows(2) {
        assert!(t.micros(w[0]) <= t.micros(w[1]));
    }
    assert_eq!(t.micros(4_000), -1);
    assert_eq!(t.micros(6_000), 1);
}

#[test]
fn timed_waits_fire_soonest_first() {
    let mut w = TimedWaits::new();
    w.push(300, 1);
    w.push(100, 2);
    w.push(200, 3);
    w.push(100, 4);
    assert_eq!(w.waits, vec![(100, 2), (100, 4), (200, 3), (300, 1)]);
    assert_eq!(w.take_due(99), Vec::<u64>::new());
    assert_eq!(w.take_due(200), vec![2, 4, 3]);
    assert_eq!(w.waits, vec![(300, 1)]);
    assert_eq!(w.take_due(1000), vec![1]);
    assert!(w.waits.is_empty());
    assert!(interrupt_wake_due(1000, 1500, false));
    assert!(!interrupt_wake_due(1000, 1499, false));
    assert!(interrupt_wake_due(1000, 0, true));
    assert!(!interrupt_wake_due(i64::MAX, i64::MIN, false));
    assert_eq!(wake_time(5_000, 1_000_000), 1_005_000);
}

#[test]
fn admin_page_decisions() {
    assert_eq!(liveness(-1), Liveness::Unknown);
    assert_eq!(liveness(0), Liveness::Alive);
    assert_eq!(liveness(119), Liveness::Alive);
    assert_eq!(liveness(120), Liveness::Late);
    assert_eq!(liveness(299), Liveness::Late);
    assert_eq!(liveness(300), Liveness::Lost);
    assert_eq!(ping_age(1000, 400), 600);
    assert_eq!(ping_age(10, 400), -390);
    assert_eq!(split_image_name(b"ubuntu"), (b"ubuntu".to_vec(), None));
    assert_eq!(split_image_name(b"ubuntu@3"), (b"ubuntu".to_vec(), Some(b"3".to_vec())));
    assert_eq!(split_image_name(b"a@b@c"), (b"a".to_vec(), Some(b"b".to_vec())));
    assert_eq!(split_image_name(b"@"), (Vec::new(), Some(Vec::new())));
    let full = "exam-2024@7";
    let mut it = full.split('@');
    let (name, version) = split_image_name(full.as_bytes());
    assert_eq!(name, it.next().unwrap().as_bytes());
    assert_eq!(version.as_deref(), it.next().map(|v| v.as_bytes()));
}

#[test]
fn fault_banner_layout() {
    let off = RawFb { base: 0, stride: 800, width: 800, height: 600, current_row: 0 };
    assert!(off.draw_fault_banner("x").is_none());
    let fb = RawFb { base: 0x8000_0000, stride: 800, width: 800, height: 600, current_row: 0 };
    let (red_rows, lines) = fb.draw_fault_banner("disk gone\nmore").unwrap();
    assert_eq!(red_rows, 12);
    assert_eq!(lines.len(), 5);
    let text = |i: usize| lines[i].cells.iter().map(|c| c.1).collect::<String>();
    assert_eq!((lines[0].row, lines[0].cells[0].0, lines[0].fg, lines[0].bg), (1, 15, COLOR_YELLOW, COLOR_BG_RED));
    assert_eq!(text(0), "======================= SYSTEM FAULT DETECTED =======================");
    assert_eq!((lines[1].row, lines[1].cells[0].0), (3, 2));
    assert_eq!(text(1), "REASON:");
    assert_eq!((lines[2].row, lines[2].cells[0].0, lines[2].fg), (3, 10, COLOR_WHITE));
    assert_eq!(text(2), "disk gone");
    assert_eq!((lines[3].row, lines[3].cells[0].0), (5, 2));
    assert_eq!(text(3), "System halted. Check diagnostic information above.");
    assert_eq!((lines[4].row, lines[4].cells[0].0), (7, 15));
    let narrow = RawFb { base: 1, stride: 80, width: 80, height: 64, current_row: 0 };
    let (red_rows, lines) = narrow.draw_fault_banner("abcdef").unwrap();
    assert_eq!(red_rows, 4);
    assert_eq!(lines[0].cells.len(), 10);
    assert_eq!(lines[2].cells.len(), 0);
}

#[test]
fn clearing_an_area_wider_than_the_screen_skips_cells_past_the_buffer() {
    let dot = ScreenChar { c: '.', fg: Color::White, bg: Color::Black };
    let mut back = vec![dot; 12];
    // Four columns; the area starts at column 2 and is three wide, so its
    // third column wraps onto the next row; its last row lies past the buffer.
    let mut area = DrawArea { offset: (2, 1), size: (3, 3), pos: (1, 1), scroll: false };
    area.clear(&mut back, 4);
    let blanked = [6usize, 7, 8, 10, 11];
    for (i, cell) in back.iter().enumerate() {
        if blanked.contains(&i) {
            assert_eq!(cell.c, ' ', "cell {} not blanked", i);
        } else {
            assert_eq!(*cell, dot, "cell {} changed", i);
        }
    }
    assert_eq!(area.pos, (0, 0));
}

#[test]
fn print_blanks_the_row_then_draws_until_newline() {
    // 24 columns (8-pixel glyphs) and 2 rows (16-pixel glyphs).
    let mut fb = RawFb { base: 1, stride: 192, width: 192, height: 32, current_row: 0 };
    let line = fb.print(&"hi\nthere".chars().collect(), 0x00FF_FFFF, 0x0000_0000).unwrap();
    assert_eq!(line.row, 0);
    assert_eq!(line.blank_cols, 24);
    assert_eq!(line.cells, vec![(0, 'h'), (1, 'i')]);
    assert_eq!((line.fg, line.bg), (0x00FF_FFFF, 0));
    let second = fb.print(&"x".repeat(30).chars().collect(), 1, 2).unwrap();
    assert_eq!(second.row, 1);
    assert_eq!(second.cells.len(), 24);
    assert!(fb.print(&"late".chars().collect(), 1, 2).is_none());
    assert_eq!(fb.current_row, 3);
}
