use pixie::ahci::{
    ahci_command, command_list_running, fis_receive_running, is_ahci_controller, poll_command, port_base,
    port_implemented, sata_drive_present, start_writes, stop_command_list, stop_fis_receive, transfer_opcode,
    AhciDisk, CommandPoll, ATA_CMD_READ_DMA_EXT,
};
use pixie::disk::{plan_transfer, PlanRun, TransferStep};
use pixie::error::Error;
use pixie::e1000::{
    eeprom_command, eeprom_word, fallback_mac, is_valid_mac, mac_from_eeprom, mac_from_registers, probe,
    receive_address_registers, ring_base, ring_buffers, ring_pages, rx_ring, tx_ring, ctrl_link_up,
    manc_forwarding, mulr_errata, rxdctl_enabled, tarc_errata, tctl_value, tipg_value, txdctl_enabled, E1000Device,
    RxOutcome, RCTL_VALUE, TX_CMD,
};
use pixie::input::{InputState, Key, Ps2Event};
use pixie::nic::{ephemeral_port, link_step, LinkStep, PortCounter, first_link_up, poll_result, poll_sleep_micros, KernelNic, LinkRegisters};
use pixie::nvme::{
    active_namespaces_command, create_io_cq, create_io_sq, doorbell_stride, identify_namespace_command, io_command,
    parse_namespace_identify, parse_namespace_list, with_command_id, CompletionState, NvmeDisk, NvmeQueue, AQA_VALUE,
    CC_ENABLE, QUEUE_ENTRIES,
};
use pixie::pci::{config_address, pci_read_u16, pci_write_u16, scan_pci, Bar, FunctionRegs, PciDevice};
use pixie::rtl8169::{
    register_access, rx_ring as rtl_rx_ring, tx_flags, tx_ring as rtl_tx_ring, RegisterAccess, Rtl8169Device,
    DESC_EOR, NUM_RX_DESC as RTL_RX, NUM_TX_DESC as RTL_TX, RCR_VALUE, TCR_VALUE,
};
use pixie::serial::SerialPort;

fn dev(vendor_id: u16, device_id: u16, class_code: u8, subclass: u8) -> PciDevice {
    PciDevice { bus: 0, dev: 0, func: 0, vendor_id, device_id, class_code, subclass, prog_if: 0 }
}

#[test]
fn transfer_plan_tiles_the_range() {
    let steps = plan_transfer(1000, 5000, 512, 4, true);
    // 1000 = block 1 + 488; the first step covers blocks 1..5 from byte 488
    assert_eq!(steps[0], TransferStep { lba: 1, blocks: 4, in_block: 488, len: 1560, buf_start: 0, preload: true });
    let mut next = 0;
    for s in &steps {
        assert_eq!(s.buf_start, next);
        assert_eq!(s.lba * 512 + s.in_block as u64, 1000 + s.buf_start as u64);
        next += s.len;
    }
    assert_eq!(next, 5000);
    assert!(plan_transfer(0, 0, 512, 4, false).is_empty());
    let aligned = plan_transfer(0, 2048, 512, 4, true);
    assert_eq!(aligned.len(), 1);
    assert!(!aligned[0].preload);
}

#[test]
fn nvme_geometry_and_commands() {
    let mut d = NvmeDisk::new(4);
    d.set_namespace(1, 1000, 512);
    assert_eq!(d.size(), 512_000);
    assert_eq!(d.block_size(), 512);
    assert_eq!(d.num_blocks(), 1000);
    let r = d.read_sync(0, 4096);
    assert_eq!(r.len(), 1);
    assert_eq!(r[0].blocks, 8);
    d.set_namespace(1, u64::MAX, 4096);
    assert_eq!(d.size(), u64::MAX);
    let cmd = io_command(true, 1, 0x1000, 0x1_2345_6789, 8);
    assert_eq!((cmd.cdw0, cmd.cdw10, cmd.cdw11, cmd.cdw12), (1, 0x2345_6789, 1, 7));
    assert_eq!(with_command_id(cmd, 3).cdw0, 0x0003_0001);
}

#[test]
fn nvme_queue_wraps_and_flips_phase() {
    let mut q = NvmeQueue::new();
    for i in 0..64u16 {
        assert_eq!(q.submit(), i);
    }
    assert_eq!(q.submit(), 0);
    assert_eq!(q.complete(0), CompletionState::Pending);
    for _ in 0..64 {
        assert_eq!(q.complete(1), CompletionState::Success);
    }
    assert!(!q.cq_phase);
    assert_eq!(q.cq_head, 0);
    assert_eq!(q.complete(0), CompletionState::Success);
    assert_eq!(q.complete(0x4), CompletionState::Failed);
}

#[test]
fn nvme_identify_decoding() {
    let mut id = vec![0u8; 4096];
    id[0..8].copy_from_slice(&2048u64.to_le_bytes());
    id[26] = 1;
    id[128 + 4 + 2] = 12;
    assert_eq!(parse_namespace_identify(&id).unwrap(), (2048, 4096));
    id[128 + 4 + 2] = 13;
    assert!(parse_namespace_identify(&id).is_err());
    id[128 + 4 + 2] = 70;
    assert!(parse_namespace_identify(&id).is_err());
    let list = [1u8, 0, 0, 0, 7, 0, 0, 0, 0, 0, 0, 0, 9, 0, 0, 0];
    assert_eq!(parse_namespace_list(&list), vec![1, 7]);
    assert_eq!(doorbell_stride(0xffff, 2).unwrap(), 16);
    assert!(doorbell_stride(10, 0).is_err());
}

#[test]
fn ahci_identify_and_fis() {
    let mut d = AhciDisk::new(2);
    let mut id = vec![0u8; 512];
    id[120..124].copy_from_slice(&100u32.to_le_bytes());
    assert!(d.set_identify(&id).is_ok());
    assert_eq!(d.num_blocks(), 100);
    assert_eq!(d.block_size(), 512);
    assert_eq!(d.size(), 51_200);
    id[200..208].copy_from_slice(&5000u64.to_le_bytes());
    d.set_identify(&id).unwrap();
    assert_eq!(d.num_blocks(), 5000);
    assert!(d.set_identify(&vec![0u8; 512]).is_err());
    d.set_identify(&id).unwrap();
    let steps = d.write_sync(100, 300);
    assert_eq!(steps.len(), 1);
    assert!(steps[0].preload);
    let cmd = ahci_command(ATA_CMD_READ_DMA_EXT, false, 0x0605_0403_0201, 0x0102, 4096);
    assert_eq!(cmd.header_flags, 5);
    assert_eq!(cmd.prdt_dbc, 0x8000_0FFF);
    assert_eq!(
        cmd.fis,
        vec![0x27, 0x80, 0x25, 0, 1, 2, 3, 0x40, 4, 5, 6, 0, 2, 1, 0, 0, 0, 0, 0, 0]
    );
}

#[test]
fn ahci_polling_and_ports() {
    assert_eq!(poll_command(0, 0, 5, 10), CommandPoll::Done);
    assert_eq!(poll_command(0, 1, 5, 10), CommandPoll::Failed);
    assert_eq!(poll_command(1, 0, 11, 10), CommandPoll::TimedOut);
    assert_eq!(poll_command(1, 0, 5, 10), CommandPoll::Running);
    assert!(sata_drive_present(0x103, 0x101));
    assert!(!sata_drive_present(0x103, 0xEB14_0101));
    assert!(port_implemented(0b100, 2));
    assert!(!port_implemented(0b100, 1));
    assert_eq!(port_base(0x1000, 2), 0x1000 + 0x100 + 0x100);
    assert!(is_ahci_controller(1, 6, 1));
}

#[test]
fn e1000_mac_selection() {
    let mac = [0x52, 0x54, 0x00, 0x12, 0x34, 0x56];
    let (ral, rah) = receive_address_registers(&mac);
    assert_eq!(ral, 0x1200_5452);
    assert_eq!(rah, 0x8000_5634);
    assert_eq!(mac_from_registers(ral, rah), mac);
    assert_eq!(mac_from_registers(ral, 0x5634), [0; 6]);
    assert_eq!(mac_from_eeprom(&[0x5452, 0x1200, 0x5634]), mac);
    assert!(is_valid_mac(&mac));
    assert!(!is_valid_mac(&[0xff; 6]));
    assert!(!is_valid_mac(&[1, 0, 0, 0, 0, 0]));
    assert_eq!(fallback_mac([0; 6], Some(mac)), mac);
    assert_eq!(eeprom_word(0xABCD_0010, false), Some(0xABCD));
    assert_eq!(eeprom_word(0xABCD_0010, true), None);
    assert_eq!(eeprom_command(3, true), 1 + 12);
}

#[test]
fn e1000_probe_and_rings() {
    assert!(probe(&dev(0x8086, 0x10d3, 2, 0)));
    assert!(!probe(&dev(0x8086, 0x24f3, 2, 0)));
    assert!(!probe(&dev(0x8086, 0x2456, 2, 0)));
    let mut d = E1000Device::new([2; 6]);
    let mut done = vec![false; 256];
    for _ in 0..255 {
        assert!(d.can_transmit(&done));
        d.queue_tx(0x1000, 60);
    }
    assert!(!d.can_transmit(&done));
    done[0] = true;
    assert!(d.can_transmit(&done));
    assert_eq!(d.tx_clean, 1);
    let (slot, desc) = d.queue_tx(0x2000, 64);
    assert_eq!(slot, 255);
    assert_eq!((desc.length, desc.cmd), (64, TX_CMD));
    assert_eq!(d.receive(0, 0, 0, 100), RxOutcome::Empty);
    assert_eq!(d.receive(3, 0, 200, 100), RxOutcome::Packet(100));
    assert_eq!(d.receive(3, 1, 200, 100), RxOutcome::Dropped);
    assert_eq!(d.rx_cur, 2);
}

#[test]
fn rtl8169_access_and_flags() {
    let bars = vec![Some(Bar::Io { port: 0xc000 }), None, Some(Bar::Memory { base: 0xfe00_0000, size: 0, is_64bit: false })];
    assert_eq!(register_access(&bars), Some(RegisterAccess::Mmio(0xfe00_0000)));
    assert_eq!(register_access(&vec![Some(Bar::Io { port: 0xc000 })]), Some(RegisterAccess::Io(0xc000)));
    assert_eq!(register_access(&vec![None]), None);
    assert_eq!(tx_flags(0, 60), 0xB000_003C);
    assert_eq!(tx_flags(63, 60), 0xF000_003C);
    let mut d = Rtl8169Device::new(RegisterAccess::Io(1), [2; 6]);
    assert_eq!(d.receive(0x8000_0000, 100), None);
    assert_eq!(d.receive(104, 1500), Some((100, 0x8000_0800)));
    assert!(pixie::rtl8169::probe(&dev(0x10EC, 0x8168, 2, 0)));
}

#[test]
fn nic_dispatch_and_policies() {
    let mut n = KernelNic::Rtl8169(Rtl8169Device::new(RegisterAccess::Io(1), [4; 6]));
    assert_eq!(n.mac_address(), [4; 6]);
    assert!(n.is_link_up(&LinkRegisters { status: 0, phy_status: 2, media_status: 4 }));
    assert!(n.can_transmit(&vec![false; 256]));
    let e = KernelNic::E1000(E1000Device::new([5; 6]));
    assert!(!e.is_link_up(&LinkRegisters { status: 0, phy_status: 2, media_status: 0 }));
    assert!(e.has_packets(1));
    assert_eq!(first_link_up(&vec![false, true, true]), Some(1));
    assert_eq!(first_link_up(&vec![false]), None);
    assert_eq!(ephemeral_port(0), 49152);
    assert_eq!(ephemeral_port(11847), 49152);
    assert_eq!(ephemeral_port(11846), 60998);
    assert_eq!(poll_sleep_micros(None), 2000);
    assert_eq!(poll_sleep_micros(Some(0)), 100);
    assert_eq!(poll_sleep_micros(Some(50)), 100);
    assert_eq!(poll_sleep_micros(Some(500)), 500);
    assert_eq!(poll_sleep_micros(Some(9000)), 5000);
    assert_eq!(poll_result(0, false, false, Some(4000)), Some(1000));
    assert_eq!(poll_result(1, false, false, None), Some(0));
}

#[test]
fn pci_config_registers() {
    assert_eq!(config_address(1, 2, 3, 0x13), 0x8001_1310);
    assert_eq!(pci_read_u16(0x1234_5678, 2), 0x1234);
    assert_eq!(pci_read_u16(0x1234_5678, 0), 0x5678);
    let w = pci_write_u16(0x1234_5678, 2, 0xabcd);
    assert_eq!(w, 0xabcd_5678);
    assert_eq!(pci_read_u16(w, 2), 0xabcd);
}

#[test]
fn serial_translates_newlines() {
    let mut p = SerialPort::new(0x3F8);
    assert!(p.write_str("a\nb").is_empty());
    p.record_probe(0xAE);
    assert_eq!(p.write_str("a\nb"), vec![b'a', b'\r', b'\n', b'b']);
    assert!(p.has_data(1));
    p.record_probe(0);
    assert!(!p.present);
}

#[test]
fn ps2_keys_and_ctrl_alt_del() {
    let mut s = InputState::new();
    assert_eq!(s.poll_ps2(1, 0xE0), Ps2Event::Nothing);
    assert_eq!(s.poll_ps2(1, 0x48), Ps2Event::Pressed(Key::Up));
    assert_eq!(s.poll_ps2(1, 0x48), Ps2Event::Nothing);
    assert_eq!(s.poll_ps2(1, 0x1C), Ps2Event::Pressed(Key::Enter));
    assert_eq!(s.poll_ps2(0x21, 0x1C), Ps2Event::Nothing);
    assert_eq!(s.poll_ps2(1, 0x1D), Ps2Event::Nothing);
    assert_eq!(s.poll_ps2(1, 0x38), Ps2Event::Nothing);
    assert_eq!(s.poll_ps2(1, 0x53), Ps2Event::Reset);
    assert_eq!(s.poll_ps2(1, 0x9D), Ps2Event::Nothing);
    assert_eq!(s.poll_ps2(1, 0x53), Ps2Event::Nothing);
}

#[test]
fn serial_escape_sequences_and_queue() {
    let mut s = InputState::new();
    assert_eq!(s.poll_serial(0x1B), None);
    assert_eq!(s.poll_serial(b'['), None);
    assert_eq!(s.poll_serial(b'D'), Some(Key::Left));
    assert_eq!(s.poll_serial(b'\n'), Some(Key::Enter));
    assert_eq!(s.poll_serial(b'x'), None);
    assert!(s.poll_background(Some(Key::Down)));
    assert!(s.poll_background(Some(Key::Up)));
    assert!(!s.poll_background(None));
    assert_eq!(s.try_read_key(Some(Key::Enter)), Some(Key::Down));
    assert!(s.check_key_pressed(None));
    assert_eq!(s.try_read_key(Some(Key::Enter)), Some(Key::Enter));
    assert!(!s.check_key_pressed(None));
}

#[test]
fn e1000_setup_register_values() {
    assert_eq!(mulr_errata(0x0000_0001), Some(0x0000_2001));
    assert_eq!(mulr_errata(0xFFFF_FFFF), None);
    assert_eq!(tarc_errata(0x3000_0401), Some(0x2000_0401));
    assert_eq!(tarc_errata(0xFFFF_FFFF), None);
    assert_eq!(manc_forwarding(0x0000_2000), Some(0x0020_0000));
    assert_eq!(manc_forwarding(0xFFFF_FFFF), None);
    assert_eq!(ctrl_link_up(0x0400_0001), 0x0000_0041);
    assert_eq!(rxdctl_enabled(0x0001_0101), 0x0200_0000);
    assert_eq!(txdctl_enabled(0x8000_0000), 0x8341_011F);
    assert_eq!(tipg_value(0), 0x0060_200A);
    assert_eq!(tipg_value(0x1234), 0x1234);
    assert_eq!(tctl_value(0xFFFF_FFFF), 0x1004_00FA);
    assert_eq!(tctl_value(0x100), 0x10A);
    assert_eq!(RCTL_VALUE, (1 << 1) | (1 << 3) | (1 << 4) | (1 << 15) | (1 << 26));
}

#[test]
fn e1000_rings_layout() {
    assert_eq!(ring_pages(1024), 4);
    assert_eq!(ring_pages(256), 1);
    assert_eq!(ring_base(0x0000_0001_2345_6000), (1, 0x2345_6000));
    let bufs = ring_buffers(&vec![0x1000, 0x5000]);
    assert_eq!(bufs, vec![0x1000, 0x1800, 0x5000, 0x5800]);
    let rx = rx_ring(&bufs);
    assert_eq!(rx.len(), 4);
    assert_eq!(rx[1].buffer_addr, 0x1800);
    assert_eq!(rx[1].status, 0);
    let tx = tx_ring(&bufs);
    assert_eq!(tx[3].buffer_addr, 0x5800);
    assert_eq!(tx[3].status, 1);
    assert_eq!(tx[3].cmd, 0);
}

#[test]
fn rtl8169_rings_split_addresses_and_mark_the_end() {
    let bufs: Vec<u64> = (0..RTL_RX as u64).map(|i| 0x1_0000_0000 + i * 2048).collect();
    let rx = rtl_rx_ring(&bufs);
    assert_eq!(rx.len(), RTL_RX);
    assert_eq!(rx[0].opts1, 0x8000_0800);
    assert_eq!(rx[RTL_RX - 1].opts1, 0xC000_0800);
    assert_eq!(rx[3].buf_addr_low, 3 * 2048);
    assert_eq!(rx[3].buf_addr_high, 1);
    let tx = rtl_tx_ring(&bufs[..RTL_TX].to_vec());
    assert_eq!(tx[0].opts1, 0);
    assert_eq!(tx[RTL_TX - 1].opts1, DESC_EOR);
    assert_eq!(tx[RTL_TX - 1].buf_addr_high, 1);
    assert_eq!(TCR_VALUE, (6 << 8) | (3 << 24));
    assert_eq!(RCR_VALUE, 0x0E | (7 << 8) | (7 << 13));
}

#[test]
fn nvme_bring_up_commands() {
    let q = QUEUE_ENTRIES as u32;
    assert_eq!(AQA_VALUE, ((q - 1) << 16) | (q - 1));
    assert_eq!(CC_ENABLE, (6 << 16) | (4 << 20) | 1);
    let cq = create_io_cq(0x1000);
    assert_eq!((cq.cdw0, cq.prp1, cq.cdw10, cq.cdw11, cq.nsid), (0x05, 0x1000, ((q - 1) << 16) | 1, 1, 0));
    let sq = create_io_sq(0x2000);
    assert_eq!((sq.cdw0, sq.prp1, sq.cdw10, sq.cdw11), (0x01, 0x2000, ((q - 1) << 16) | 1, (1 << 16) | 1));
    let id = identify_namespace_command(3, 0x3000);
    assert_eq!((id.cdw0, id.nsid, id.prp1, id.cdw10), (0x06, 3, 0x3000, 0));
    let list = active_namespaces_command(0x4000);
    assert_eq!((list.cdw0, list.nsid, list.prp1, list.cdw10), (0x06, 0, 0x4000, 0x02));
}

#[test]
fn ahci_port_start_and_stop_values() {
    assert_eq!(stop_command_list(0x0000_C017), 0x0000_C016);
    assert_eq!(stop_fis_receive(0x0000_4016), 0x0000_4006);
    assert_eq!(start_writes(0x0000_0006), (0x0000_0016, 0x0000_0017));
    assert!(command_list_running(1 << 15));
    assert!(!command_list_running(1 << 14));
    assert!(fis_receive_running(1 << 14));
    assert!(!fis_receive_running(1 << 4));
    assert_eq!(transfer_opcode(true), 0x35);
    assert_eq!(transfer_opcode(false), ATA_CMD_READ_DMA_EXT);
}

#[test]
fn pci_scan_follows_present_and_multifunction_bits() {
    let absent = FunctionRegs { vendor_id: 0xFFFF, device_id: 0xFFFF, class_code: 0xFF, subclass: 0xFF, prog_if: 0xFF };
    let mut regs = vec![absent; 65536];
    let mut hdr = vec![0u8; 8192];
    let slot = |bus: usize, dev: usize, func: usize| (bus * 32 + dev) * 8 + func;
    let nic = FunctionRegs { vendor_id: 0x8086, device_id: 0x10D3, class_code: 2, subclass: 0, prog_if: 0 };
    // single-function device: its function 3 is never looked at
    regs[slot(0, 2, 0)] = nic;
    regs[slot(0, 2, 3)] = nic;
    // multi-function device with functions 0 and 5
    regs[slot(1, 4, 0)] = FunctionRegs { vendor_id: 0x1022, device_id: 1, class_code: 1, subclass: 6, prog_if: 1 };
    regs[slot(1, 4, 5)] = FunctionRegs { vendor_id: 0x1022, device_id: 2, class_code: 1, subclass: 8, prog_if: 2 };
    hdr[1 * 32 + 4] = 0x80;
    // function 1 of a device whose function 0 is absent is skipped
    regs[slot(3, 0, 1)] = nic;
    hdr[3 * 32] = 0x80;
    let found = scan_pci(&regs, &hdr);
    let ids: Vec<(u8, u8, u8, u16)> = found.iter().map(|d| (d.bus, d.dev, d.func, d.device_id)).collect();
    assert_eq!(ids, vec![(0, 2, 0, 0x10D3), (1, 4, 0, 1), (1, 4, 5, 2)]);
    assert_eq!(found[2].subclass, 8);
    assert_eq!(found[2].prog_if, 2);
}

#[test]
fn port_counter_hands_out_ports_in_turn() {
    let mut c = PortCounter::new();
    assert_eq!(c.get_ephemeral_port(), 49152);
    assert_eq!(c.get_ephemeral_port(), 49153);
    assert_eq!(c.next, 2);
    let mut wrap = PortCounter { next: u64::MAX };
    assert_eq!(wrap.get_ephemeral_port(), (u64::MAX % 11847 + 49152) as u16);
    assert_eq!(wrap.next, 0);
    let mut seen = std::collections::HashSet::new();
    let mut c = PortCounter { next: 1000 };
    for _ in 0..11847 {
        assert!(seen.insert(c.get_ephemeral_port()));
    }
}

#[test]
fn link_checks_use_the_first_link_up_or_wait() {
    assert_eq!(link_step(3, &vec![false, true, true]), LinkStep::Use(1));
    assert_eq!(link_step(0, &vec![false, false]), LinkStep::Wait { notice: true, last: false });
    assert_eq!(link_step(7, &vec![false]), LinkStep::Wait { notice: false, last: false });
    assert_eq!(link_step(49, &vec![false]), LinkStep::Wait { notice: false, last: true });
}

#[test]
fn a_read_stops_at_the_first_failing_command() {
    // 1000 bytes at byte 700 of a disk of 512-byte blocks, 2 blocks a command.
    let steps = plan_transfer(700, 1000, 512, 2, false);
    let disk: Vec<u8> = (0..4096u32).map(|i| (i % 251) as u8).collect();
    let mut buf = vec![0u8; 1000];
    let mut run = PlanRun::new();
    while let Some(k) = run.next_step(&steps) {
        let st = steps[k];
        let start = st.lba as usize * 512;
        let dma = disk[start..start + st.blocks as usize * 512].to_vec();
        run.record_read(&steps, &mut buf, &dma, Ok(()));
    }
    assert!(run.outcome().is_ok());
    assert_eq!(buf, disk[700..1700].to_vec());

    let mut buf = vec![7u8; 1000];
    let mut run = PlanRun::new();
    let mut issued = 0;
    while let Some(k) = run.next_step(&steps) {
        issued += 1;
        let result = if k == 1 { Err(Error::msg("timeout".to_string())) } else { Ok(()) };
        run.record_read(&steps, &mut buf, &vec![1u8; 1024], result);
    }
    assert_eq!(issued, 2);
    assert_eq!(run.outcome().unwrap_err().0, "timeout");
}
