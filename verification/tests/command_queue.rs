//! Records of the command queue, its rings and its templates.

use libtt::compiler::CompiledKernel;
use libtt::cq::queue::{go_word, lower_ir, relayed_records, CommandQueue};
use libtt::cq::ring::{
    check_event, completion_timeout, slot_timeout, sysmem_offset, sysmem_size, CompletionRing,
    IssueRing, HOST_ISSUE_BASE, HOST_ISSUE_SIZE, PCIE_NOC_BASE,
};
use libtt::cq::start::{
    build_prefetch_image, cq_kernels, dispatch_setup, host_setup, ncrisc_offset, prefetch_setup,
    upload_cq_core, QueueLayout,
};
use libtt::cq::template::{host_event_record, uniform_blob_size, RuntimeCqTemplate};
use libtt::cq::{event, noc_mcast_xy, relay_inline, CqAbi, CqCommand};
use libtt::dispatch::plan::DispatchCommand;
use libtt::error::ErrorKind;
use libtt::hw::CoreCoord;

fn abi() -> CqAbi {
    CqAbi {
        relay_inline: 5,
        write_linear_h_host: 3,
        write_packed: 6,
        write_packed_large: 7,
        wait: 8,
        send_go_signal: 14,
        set_go_signal_noc_data: 17,
        packed_large_max_sub_cmds: 35,
        packed_large_flag_unlink: 1,
        packed_large_type_program_binaries: 2,
        packed_flag_none: 0,
        wait_flag_wait_stream: 8,
        wait_flag_clear_stream: 16,
        go_no_multicast_offset: 0xff,
        done_stream: 48,
    }
}

fn at(x: u8, y: u8) -> CoreCoord {
    CoreCoord { x, y }
}

fn read_u32(bytes: &[u8], offset: usize) -> u32 {
    u32::from_le_bytes(bytes[offset..offset + 4].try_into().unwrap())
}

#[test]
fn relayed_records_start_with_their_length() {
    let record = relay_inline(&abi(), &[1, 2, 3, 4, 5]);
    assert_eq!(record.len(), 64);
    assert_eq!(record[0], 5);
    assert_eq!(read_u32(&record, 4), 5);
    assert_eq!(read_u32(&record, 8), 64);
    assert_eq!(&record[16..21], &[1, 2, 3, 4, 5]);
    assert!(record[21..].iter().all(|b| *b == 0));
    assert_eq!(relay_inline(&abi(), &[0; 49]).len(), 128);
}

#[test]
fn rectangles_are_packed_into_a_word() {
    let (word, count) = noc_mcast_xy(at(1, 2), at(3, 5));
    assert_eq!(word, (5 << 18) | (3 << 12) | (2 << 6) | 1);
    assert_eq!(count, 12);
}

#[test]
fn packed_writes_list_cores_before_data() {
    let command = CqCommand::WritePacked {
        cores: vec![at(1, 2), at(1, 3)],
        addr: 0x86b0,
        data: vec![vec![7; 4], vec![9; 4]],
    };
    let records = command.to_records(&abi()).expect("records");
    assert_eq!(records.len(), 1);
    let record = &records[0];
    assert_eq!(record[0], 6);
    assert_eq!(read_u32(record, 8), 0x86b0);
    assert_eq!(read_u32(record, 16), (2 << 6) | 1);
    assert_eq!(read_u32(record, 20), (3 << 6) | 1);
    assert_eq!(&record[32..36], &[7, 7, 7, 7]);
    assert_eq!(&record[48..52], &[9, 9, 9, 9]);
    assert_eq!(record.len(), 64);
}

#[test]
fn large_writes_are_split_into_batches() {
    let rects: Vec<(CoreCoord, CoreCoord)> = (0..36).map(|i| (at(1, i), at(1, i))).collect();
    let command = CqCommand::WritePackedLarge { rects, addr: 0x1000, data: vec![1; 20] };
    let records = command.to_records(&abi()).expect("records");
    assert_eq!(records.len(), 2);
    assert_eq!(u16::from_le_bytes([records[0][2], records[0][3]]), 35);
    assert_eq!(u16::from_le_bytes([records[1][2], records[1][3]]), 1);
}

#[test]
fn commands_are_refused_where_they_do_not_fit() {
    let empty = CqCommand::WritePackedLarge {
        rects: vec![(at(1, 2), at(1, 2))],
        addr: 0,
        data: Vec::new(),
    };
    assert_eq!(empty.to_records(&abi()).expect_err("no data").kind, ErrorKind::InvalidInput);
    let long = CqCommand::WritePackedLarge {
        rects: vec![(at(1, 2), at(1, 2))],
        addr: 0,
        data: vec![0; 0x1_0001],
    };
    assert!(long.to_records(&abi()).is_err());
    let uneven = CqCommand::WritePacked { cores: vec![at(1, 2)], addr: 0, data: Vec::new() };
    assert!(uneven.to_records(&abi()).is_err());
    let none = CqCommand::WritePackedLarge { rects: Vec::new(), addr: 0, data: Vec::new() };
    assert!(none.to_records(&abi()).expect("nothing to do").is_empty());
}

#[test]
fn queues_split_into_the_records_that_were_appended() {
    let commands = [
        CqCommand::HostEvent(3),
        CqCommand::SetGoSignalNocData { cores: vec![at(1, 2), at(2, 3)] },
        CqCommand::WaitStream { stream: 48, count: 2, clear: true },
        CqCommand::SendGoSignal { go_word: 7, stream: 48, count: 0, num_unicast: 2 },
    ];
    let mut queue = CommandQueue::new();
    let mut expected = Vec::new();
    for command in &commands {
        queue.append(&abi(), command).expect("append");
        expected.extend(relayed_records(&abi(), command).expect("records"));
    }
    assert_eq!(queue.split(), expected);
    assert_eq!(queue.stream.len() % 64, 0);
}

#[test]
fn events_carry_their_number() {
    let record = event(&abi(), 0x1234);
    assert_eq!(record[0], 3);
    assert_eq!(read_u32(&record, 16), 0x1234);
    let relayed = host_event_record(&abi(), 0x1234);
    assert_eq!(relayed, relay_inline(&abi(), &record));
}

#[test]
fn launches_are_lowered_to_signals() {
    let list = vec![at(1, 2), at(1, 3)];
    let lowered = lower_ir(
        &abi(),
        vec![
            DispatchCommand::Write { cores: list.clone(), addr: 0x1000, data: vec![1] },
            DispatchCommand::Launch { cores: list.clone() },
        ],
        go_word(at(14, 3)),
    );
    match &lowered[0] {
        CqCommand::WritePackedLarge { rects, addr, .. } => {
            assert_eq!(rects, &vec![(at(1, 2), at(1, 3))]);
            assert_eq!(*addr, 0x1000);
        }
        other => panic!("unexpected command {other:?}"),
    }
    assert!(lowered.len() > 2);
}

#[test]
fn issue_ring_starts_over_before_its_end() {
    let mut ring = IssueRing::new(4);
    assert_eq!(ring.place(100), HOST_ISSUE_BASE);
    assert_eq!(ring.place(64), HOST_ISSUE_BASE + 128);
    assert_eq!(ring.place(HOST_ISSUE_SIZE), HOST_ISSUE_BASE);
    assert_eq!(ring.slot_offset(0x1000), 0x1000);
    assert_eq!(ring.announce(128).expect("size"), 8);
    assert_eq!(ring.slot_offset(0x1000), 0x1002);
    for _ in 0..3 {
        ring.announce(16).expect("size");
    }
    assert_eq!(ring.slot_offset(0x1000), 0x1000);
    assert!(ring.announce(16 * 0x1_0000).is_err());
}

#[test]
fn completion_ring_flips_its_flag_at_the_end() {
    let mut ring = CompletionRing::new(0, 2 * 4096);
    let base = ring.base_16b;
    assert!(!ring.has_news(base));
    assert!(ring.has_news(base + 256));
    assert_eq!(ring.event_offset().expect("offset"), base as u64 * 16 + 16);
    assert_eq!(ring.advance(), base + 256);
    assert_eq!(ring.advance(), base + 0x8000_0000);
    assert!(ring.has_news(base));
    assert!(!ring.has_news(base + 0x8000_0000));
}

#[test]
fn rings_report_what_went_wrong() {
    assert!(check_event(3, 3).is_ok());
    assert_eq!(
        check_event(4, 3).expect_err("other event").to_string(),
        "CQ completion event mismatch: got 4, expected 3"
    );
    assert_eq!(completion_timeout(9).kind, ErrorKind::TimedOut);
    assert_eq!(slot_timeout().kind, ErrorKind::TimedOut);
    assert_eq!(sysmem_offset(PCIE_NOC_BASE + 0x4000_0000).expect("offset"), 0x4000_0000);
    assert!(sysmem_offset(1).is_err());
    assert_eq!(sysmem_size(0x10_0000) % 4096, 0);
}

#[test]
fn templates_take_new_arguments() {
    let list = [at(1, 2), at(1, 3)];
    let go = go_word(at(14, 3));
    let mut template = RuntimeCqTemplate::new(abi(), &list, 20, go).expect("template");
    assert!(template.matches(&list, 20));
    assert!(!template.matches(&list, 24));
    assert!(!template.matches(&list[..1], 20));
    let blobs = vec![vec![1u8; 20], vec![2u8; 20]];
    let before = template.runtime_record.clone();
    template.patch_runtime_blobs(&blobs).expect("patch");
    let start = template.runtime_blob_start;
    let stride = template.runtime_blob_stride;
    assert_eq!(&template.runtime_record[start..start + 20], blobs[0].as_slice());
    assert_eq!(&template.runtime_record[start + stride..start + stride + 20], blobs[1].as_slice());
    assert_eq!(&template.runtime_record[..start], &before[..start]);
    let launch = template.launch_records(9);
    let before = template.records_before_runtime.len();
    assert_eq!(launch.len(), before + 1 + template.records_after_runtime.len() + 1);
    assert_eq!(launch[before], template.runtime_record);
    assert_eq!(launch.last(), Some(&host_event_record(&abi(), 9)));
    assert!(template.patch_runtime_blobs(&blobs[..1]).is_err());
    assert_eq!(uniform_blob_size(&blobs).expect("size"), 20);
    assert!(uniform_blob_size(&[vec![1], vec![1, 2]]).is_err());
    assert!(RuntimeCqTemplate::new(abi(), &list, 0x1_0000, go).is_err());
}

#[test]
fn templates_keep_the_arguments_before_those_of_another_size() {
    let list = [at(1, 2), at(1, 3)];
    let mut template =
        RuntimeCqTemplate::new(abi(), &list, 20, go_word(at(14, 3))).expect("template");
    template.patch_runtime_blobs(&[vec![1; 20], vec![2; 20]]).expect("patch");
    let whole = template.runtime_record.clone();
    assert!(template.patch_runtime_blobs(&[vec![3; 20]]).is_err());
    assert_eq!(template.runtime_record, whole);
    let err = template.patch_runtime_blobs(&[vec![3; 20], vec![4; 24]]).expect_err("size");
    assert_eq!(err.to_string(), "packed write blobs must have a uniform size");
    template.patch_runtime_blobs(&[vec![1; 20], vec![2; 20]]).expect("patch");
    assert_eq!(template.runtime_record, whole);
    template.patch_runtime_blobs(&[vec![3; 20], vec![2; 20]]).expect("patch");
    let mixed = template.runtime_record.clone();
    template.patch_runtime_blobs(&[vec![1; 20], vec![2; 20]]).expect("patch");
    assert!(template.patch_runtime_blobs(&[vec![3; 20], vec![4; 24]]).is_err());
    assert_eq!(template.runtime_record, mixed);
}

#[test]
fn serving_cores_get_their_kernels() {
    assert_eq!(cq_kernels().len(), 3);
    let image = build_prefetch_image(6);
    assert_eq!(image.len(), 48);
    assert_eq!(read_u32(&image, 16), 6);
    let kernel = CompiledKernel { xip: vec![1; 20], xip_text_bytes: 20, elf_bytes: None };
    let writes = upload_cq_core(&image, &[0; 96], &kernel, Some(&kernel));
    let places: Vec<(u64, usize)> = writes.iter().map(|w| (w.addr, w.data.len())).collect();
    assert_eq!(
        places,
        vec![(0x86b0, 48), (0x86b0 + 48, 20), (0x86b0 + 80, 20), (0x70, 96), (0x370, 4)]
    );
    assert_eq!(writes[0].data, image);
    assert_eq!(ncrisc_offset(&kernel), 80);
    assert_eq!(upload_cq_core(&image, &[0; 96], &kernel, None).len(), 4);
}

#[test]
fn queues_take_commands_up_to_the_first_refused() {
    let wait = |count| CqCommand::WaitStream { stream: 3, count, clear: true };
    let empty = CqCommand::WritePackedLarge {
        rects: vec![(at(1, 2), at(2, 3))],
        addr: 0,
        data: vec![],
    };
    let mut queue = CommandQueue::new();
    queue.extend(&abi(), &vec![wait(1), wait(2)]).expect("commands");
    assert_eq!(queue.split().len(), 2);
    assert!(queue.extend(&abi(), &vec![wait(3), empty, wait(4)]).is_err());
    assert_eq!(queue.split().len(), 3);
}

#[test]
fn queues_start_out_empty() {
    let layout = QueueLayout {
        prefetch_q_rd_ptr: 0x100,
        prefetch_q_pcie_rd: 0x104,
        prefetch_q_base: 0x200,
        prefetch_q_size: 0x40,
        completion_wr_ptr: 0x300,
        completion_rd_ptr: 0x310,
        completion_q0_event: 0x320,
        completion_q1_event: 0x330,
        dispatch_sync_sem: 0x400,
        host_cq_wr_off: 128,
    };
    let writes = prefetch_setup(&layout, 0x4000_0000);
    let places: Vec<(u64, usize)> = writes.iter().map(|w| (w.addr, w.data.len())).collect();
    assert_eq!(places, vec![(0x100, 4), (0x104, 4), (0x200, 0x40)]);
    assert_eq!(read_u32(&writes[0].data, 0), 0x240);
    assert_eq!(read_u32(&writes[1].data, 0), 0x4000_0100);
    let writes = dispatch_setup(&layout, 77);
    let places: Vec<(u64, usize)> = writes.iter().map(|w| (w.addr, w.data.len())).collect();
    assert_eq!(places, vec![(0x300, 4), (0x310, 4), (0x320, 4), (0x330, 4), (0x400, 128)]);
    assert_eq!(read_u32(&writes[1].data, 0), 77);
    assert_eq!(host_setup(&layout, 77), vec![(128, 77), (192, 77)]);
}
