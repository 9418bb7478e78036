//! Tests for the patch-bundle loader and the emulator planning layer.

use std::io::Write;

use rofl_decode::config::{Config, BASE_ADDR};
use rofl_decode::emu::{
    ward_packet_from_capture, StubEmulator, VmAction, WatchState, CpuReg, HEAP_BASE, PACKET_SIZE,
    STACK_BASE, STACK_SIZE,
};
use rofl_decode::ReplayError;

const RESULT_JSON: &str = r#"{
  "alloc1_rva": "0x200",
  "alloc2_rva": "0x300",
  "skip_rva": "0x100",
  "player_id_start": "0x40000001",
  "ward_spawn_decrypt": {
    "netid": 272,
    "rva_start": "0x1000",
    "rva_end": "0x1010",
    "id_offset": "0x10",
    "owner_id_offset": "0x18",
    "name_offset": "0x60",
    "name_len_offset": "0x68",
    "x_offset": "0x20",
    "x_write_count": "0x1",
    "y_offset": "0x28",
    "y_write_count": "0x1"
  },
  "mov_decrypt": {
    "netid": 261,
    "rva_start": "0x1008",
    "rva_end": "0x1020",
    "payload_offset": "0x30",
    "payload_size_offset": "0x38"
  },
  "text": { "rva": "0x1000", "size": 64 },
  "data": { "rva": "0x4000", "size": 32 },
  "rdata": { "rva": "0x6000", "size": 16 }
}"#;

fn patch_archive() -> Vec<u8> {
    let cursor = std::io::Cursor::new(Vec::new());
    let mut writer = zip::ZipWriter::new(cursor);
    let options = zip::write::SimpleFileOptions::default();
    writer.start_file("result.json", options).unwrap();
    writer.write_all(RESULT_JSON.as_bytes()).unwrap();
    writer.start_file("text.bin", options).unwrap();
    writer.write_all(&[0xCCu8; 64]).unwrap();
    writer.start_file("data.bin", options).unwrap();
    writer.write_all(&[0xDDu8; 32]).unwrap();
    writer.start_file("rdata.bin", options).unwrap();
    writer.write_all(&[0xEEu8; 16]).unwrap();
    writer.finish().unwrap().into_inner()
}

fn test_config() -> Config {
    Config::parse(&patch_archive()).unwrap()
}

#[test]
fn patch_bundle_decodes() {
    let config = test_config();
    assert_eq!(config.alloc1, 0x200);
    assert_eq!(config.alloc2, 0x300);
    assert_eq!(config.skip, 0x100);
    assert_eq!(config.player_id_start, 0x40000001);
    assert_eq!(config.base_addr, BASE_ADDR);
    assert_eq!(config.ward_spawn_decrypt.netid, 272);
    assert_eq!(config.ward_spawn_decrypt.rva, 0x1000);
    assert_eq!(config.ward_spawn_decrypt.x_offset, 0x20);
    assert_eq!(config.ward_spawn_decrypt.x_write_count, 1);
    assert_eq!(config.mov_decrypt.netid, 261);
    assert_eq!(config.mov_decrypt.payload_offset, 0x30);
    assert_eq!(config.text.rva, 0x1000);
    assert_eq!(config.text.size, 64);
    assert_eq!(config.text.raw, vec![0xCC; 64]);
    assert_eq!(config.data.raw.len(), 32);
    assert_eq!(config.rdata.raw.len(), 16);
}

#[test]
fn patch_bundle_rejects_size_mismatch() {
    let bad = RESULT_JSON.replace("\"size\": 64", "\"size\": 65");
    let cursor = std::io::Cursor::new(Vec::new());
    let mut writer = zip::ZipWriter::new(cursor);
    let options = zip::write::SimpleFileOptions::default();
    writer.start_file("result.json", options).unwrap();
    writer.write_all(bad.as_bytes()).unwrap();
    writer.start_file("text.bin", options).unwrap();
    writer.write_all(&[0u8; 64]).unwrap();
    writer.start_file("data.bin", options).unwrap();
    writer.write_all(&[0u8; 32]).unwrap();
    writer.start_file("rdata.bin", options).unwrap();
    writer.write_all(&[0u8; 16]).unwrap();
    let bytes = writer.finish().unwrap().into_inner();
    assert!(matches!(
        Config::parse(&bytes),
        Err(ReplayError::PatchConfigError)
    ));
}

#[test]
fn patch_bundle_rejects_missing_entry() {
    let cursor = std::io::Cursor::new(Vec::new());
    let mut writer = zip::ZipWriter::new(cursor);
    let options = zip::write::SimpleFileOptions::default();
    writer.start_file("result.json", options).unwrap();
    writer.write_all(RESULT_JSON.as_bytes()).unwrap();
    let bytes = writer.finish().unwrap().into_inner();
    assert!(matches!(
        Config::parse(&bytes),
        Err(ReplayError::PatchConfigError)
    ));
}

#[test]
fn hex_fields_parse_exactly() {
    assert_eq!(Config::str_hex_to_u64("0x1A").unwrap(), 26);
    assert_eq!(Config::str_hex_to_u64("ff").unwrap(), 255);
    assert_eq!(Config::str_hex_to_u64("0xFFFFFFFFFFFFFFFF").unwrap(), u64::MAX);
    assert_eq!(Config::str_hex_to_u64("0").unwrap(), 0);
    assert!(Config::str_hex_to_u64("").is_err());
    assert!(Config::str_hex_to_u64("0x").is_err());
    assert!(Config::str_hex_to_u64("0xG1").is_err());
    assert!(Config::str_hex_to_u64("10000000000000000").is_err());
    assert_eq!(Config::str_hex_to_u32("0xFFFFFFFF").unwrap(), u32::MAX);
    assert!(Config::str_hex_to_u32("0x100000000").is_err());
}

/// After planning the setup, the plan writes the literal
/// `48 C7 C0 01 00 00 00 C3` at `base_addr + skip_rva`, here `0x100`.
#[test]
fn setup_plan_patches_skip_check() {
    let config = test_config();
    let mut emu = StubEmulator::new(&config);
    let plan = emu.setup(&config).unwrap();
    let patch_addr = BASE_ADDR + 0x100;
    let mut found = false;
    for action in &plan {
        if let VmAction::WriteMem(addr, bytes) = action {
            if *addr == patch_addr {
                assert_eq!(bytes, &vec![0x48u8, 0xC7, 0xC0, 0x01, 0x00, 0x00, 0x00, 0xC3]);
                found = true;
            }
        }
    }
    assert!(found);
}

#[test]
fn setup_plan_maps_and_fills_sections() {
    let config = test_config();
    let mut emu = StubEmulator::new(&config);
    let plan = emu.setup(&config).unwrap();
    // stack first, then its stack-pointer register
    assert!(matches!(plan[0], VmAction::MapRw(a, s) if a == STACK_BASE && s == STACK_SIZE));
    assert!(
        matches!(plan[1], VmAction::WriteReg(CpuReg::Rsp, v) if v == STACK_BASE + STACK_SIZE - 0x100)
    );
    // the text section bytes land at the exact unaligned address
    let mut text_written = false;
    for action in &plan {
        if let VmAction::WriteMem(addr, bytes) = action {
            if *addr == BASE_ADDR + 0x1000 {
                assert_eq!(bytes.len(), 64);
                assert!(bytes.iter().all(|b| *b == 0xCC));
                text_written = true;
            }
        }
    }
    assert!(text_written);
    // the allocator patch lands at both allocator stubs
    let allocs: Vec<&VmAction> = plan
        .iter()
        .filter(|a| {
            matches!(a, VmAction::WriteMem(addr, bytes)
                if (*addr == BASE_ADDR + 0x200 || *addr == BASE_ADDR + 0x300) && bytes.len() == 88)
        })
        .collect();
    assert_eq!(allocs.len(), 2);
}

#[test]
fn argument_plan_lays_out_heap() {
    let config = test_config();
    let mut emu = StubEmulator::new(&config);
    emu.setup(&config).unwrap();
    let reset_plan = emu.reset();
    assert_eq!(reset_plan.len(), 2);
    let payload = [1u8, 2, 3, 4, 5];
    let plan = emu.setup_args(&payload).unwrap();

    let p = HEAP_BASE;
    let q = HEAP_BASE + PACKET_SIZE as u64;
    let q_ptr = q + payload.len() as u64;
    assert!(matches!(&plan[0], VmAction::WriteMem(a, b) if *a == q && b == &payload.to_vec()));
    assert!(
        matches!(&plan[1], VmAction::WriteMem(a, b) if *a == q_ptr && b == &q.to_le_bytes().to_vec())
    );
    assert!(matches!(plan[3], VmAction::WriteReg(CpuReg::Rcx, v) if v == p));
    assert!(matches!(plan[4], VmAction::WriteReg(CpuReg::Rdx, v) if v == q_ptr));
    assert!(matches!(plan[5], VmAction::WriteReg(CpuReg::R8, v) if v == q + 5));
    assert_eq!(emu.get_heap_cursor(), PACKET_SIZE as u64 + 5 + 8);
    assert_eq!(emu.packet_addr, p);
}

#[test]
fn watch_state_captures_nth_write() {
    let config = test_config();
    let w = &config.ward_spawn_decrypt;
    let packet_addr = 0x1000_0000u64;
    let mut watch = WatchState::new(packet_addr, w);

    // single-byte writes are reported unrecorded and uncounted
    assert!(!watch.on_write(packet_addr + 0x20, 1, 0xFF));
    assert_eq!(watch.x_bits, 0);

    // the first four-byte write at x_offset is not the captured one
    // (x_write_count is 1), the second is
    assert!(watch.on_write(packet_addr + 0x20, 4, 1111.0f32.to_bits() as u64));
    assert_eq!(watch.x_bits, 0);
    assert!(watch.on_write(packet_addr + 0x20, 4, 1000.0f32.to_bits() as u64));
    assert_eq!(watch.x_bits, 1000.0f32.to_bits());

    // id and owner are captured at their first write only
    assert!(watch.on_write(packet_addr + 0x10, 4, 0x4000_0005));
    assert!(watch.on_write(packet_addr + 0x10, 4, 0x4000_0006));
    assert_eq!(watch.id_val, 0x4000_0005);
    assert!(watch.on_write(packet_addr + 0x18, 8, 0x4000_0001));
    assert_eq!(watch.owner_val, 0x4000_0001);

    // writes outside the packet object change nothing
    assert!(watch.on_write(packet_addr + 0x1000, 4, 7));
    assert!(watch.on_write(packet_addr - 8, 4, 7));
    assert_eq!(watch.id_val, 0x4000_0005);

    // y captured at its configured write index
    assert!(watch.on_write(packet_addr + 0x28, 4, 9.0f32.to_bits() as u64));
    assert!(watch.on_write(packet_addr + 0x28, 4, 2000.0f32.to_bits() as u64));

    let packet = ward_packet_from_capture(&watch, b"SightWard".to_vec(), 12_345).unwrap();
    assert_eq!(packet.name, "SightWard");
    assert_eq!(packet.timestamp_ms, 12_345);
    assert_eq!(packet.id, 0x4000_0005);
    assert_eq!(packet.owner_id, 0x4000_0001);
    assert_eq!(packet.x, 1000);
    assert_eq!(packet.y, 2000);
}

#[test]
fn capture_rejects_bad_name_bytes() {
    let config = test_config();
    let watch = WatchState::new(0, &config.ward_spawn_decrypt);
    assert!(matches!(
        ward_packet_from_capture(&watch, vec![0xFF, 0xFE], 0),
        Err(ReplayError::DecodeFailed)
    ));
}

#[test]
fn setup_plan_rejects_overflowing_sections() {
    let mut config = test_config();
    config.text.rva = u64::MAX;
    let mut emu = StubEmulator::new(&config);
    assert!(matches!(
        emu.setup(&config),
        Err(ReplayError::EmulatorSetupError)
    ));
}
