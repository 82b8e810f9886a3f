use blockdev_api::schema::{BlockDevice, BlockDeviceKind, Partition, Request, Response, Superblock};
use blockdev_api::wire::decode::{decode_request, decode_response};
use blockdev_api::wire::encode::{encode_request, encode_response};

fn le64(x: u64) -> Vec<u8> {
    x.to_le_bytes().to_vec()
}

fn text(s: &str) -> Vec<u8> {
    let mut out = le64(s.len() as u64);
    out.extend_from_slice(s.as_bytes());
    out
}

fn message(tag: u8, payload: &[u8]) -> Vec<u8> {
    let mut out = vec![tag];
    out.extend_from_slice(&le64(payload.len() as u64));
    out.extend_from_slice(payload);
    out
}

fn sample_partition(number: u32) -> Partition {
    Partition {
        name: format!("sda{}", number),
        path: format!("/dev/sda{}", number),
        number,
        start: 2048 * u64::from(number),
        end: 2048 * u64::from(number) + 1024,
        size: 1024,
    }
}

fn sample_devices() -> Vec<BlockDevice> {
    vec![
        BlockDevice {
            path: String::from("/dev/sda"),
            size: 512_110_190_592,
            sectors: 1_000_215_216,
            kind: BlockDeviceKind::Disk,
            model: Some(String::from("Samsung SSD 860")),
            partitions: vec![sample_partition(1), sample_partition(2)],
        },
        BlockDevice {
            path: String::from("/dev/loop0"),
            size: 0,
            sectors: 0,
            kind: BlockDeviceKind::Loopback { backing_file: Some(String::from("/images/live.squashfs")) },
            model: None,
            partitions: Vec::new(),
        },
        BlockDevice {
            path: String::from("/dev/loop1"),
            size: u64::MAX,
            sectors: u64::MAX,
            kind: BlockDeviceKind::Loopback { backing_file: None },
            model: None,
            partitions: vec![sample_partition(u32::MAX)],
        },
    ]
}

#[test]
fn request_bytes_are_exact() {
    assert_eq!(encode_request(&Request::GetBlockDevices), vec![0, 0, 0, 0, 0, 0, 0, 0, 0]);
    assert_eq!(encode_request(&Request::Shutdown), vec![1, 0, 0, 0, 0, 0, 0, 0, 0]);
    assert_eq!(
        encode_request(&Request::GetSuperblock(String::from("/dev/sda1"))),
        vec![
            2, 17, 0, 0, 0, 0, 0, 0, 0, 9, 0, 0, 0, 0, 0, 0, 0, b'/', b'd', b'e', b'v', b'/', b's', b'd',
            b'a', b'1',
        ]
    );
}

#[test]
fn error_response_bytes_are_exact() {
    assert_eq!(
        encode_response(&Response::Error(String::from("no"))),
        vec![1, 10, 0, 0, 0, 0, 0, 0, 0, 2, 0, 0, 0, 0, 0, 0, 0, b'n', b'o']
    );
}

#[test]
fn superblock_response_bytes_are_exact() {
    let response = Response::Superblock(Superblock {
        uuid: Some(String::from("ab")),
        label: None,
        filesystem: String::from("ext4"),
    });
    let mut payload = vec![1];
    payload.extend_from_slice(&text("ab"));
    payload.push(0);
    payload.extend_from_slice(&text("ext4"));
    assert_eq!(encode_response(&response), message(2, &payload));
}

#[test]
fn device_response_bytes_are_exact() {
    let device = BlockDevice {
        path: String::from("/dev/loop0"),
        size: 0x0102,
        sectors: 3,
        kind: BlockDeviceKind::Loopback { backing_file: None },
        model: None,
        partitions: vec![Partition {
            name: String::from("p"),
            path: String::from("/p"),
            number: 0x0A0B0C0D,
            start: 1,
            end: 2,
            size: 1,
        }],
    };
    let mut partition = Vec::new();
    partition.extend_from_slice(&text("p"));
    partition.extend_from_slice(&text("/p"));
    partition.extend_from_slice(&[0x0D, 0x0C, 0x0B, 0x0A]);
    partition.extend_from_slice(&le64(1));
    partition.extend_from_slice(&le64(2));
    partition.extend_from_slice(&le64(1));
    let mut body = Vec::new();
    body.extend_from_slice(&text("/dev/loop0"));
    body.extend_from_slice(&[2, 1, 0, 0, 0, 0, 0, 0]);
    body.extend_from_slice(&le64(3));
    body.push(1);
    body.extend_from_slice(&le64(1));
    body.push(0);
    body.push(0);
    body.extend_from_slice(&le64(1));
    body.extend_from_slice(&le64(partition.len() as u64));
    body.extend_from_slice(&partition);
    let mut payload = le64(1);
    payload.extend_from_slice(&le64(body.len() as u64));
    payload.extend_from_slice(&body);
    assert_eq!(encode_response(&Response::BlockDevices(vec![device])), message(0, &payload));
}

#[test]
fn requests_round_trip() {
    let requests = vec![
        Request::GetBlockDevices,
        Request::Shutdown,
        Request::GetSuperblock(String::new()),
        Request::GetSuperblock(String::from("/dev/disk/by-label/données-€-𝄞")),
    ];
    for request in requests {
        assert_eq!(decode_request(&encode_request(&request)), Some(request));
    }
}

#[test]
fn responses_round_trip() {
    let responses = vec![
        Response::BlockDevices(Vec::new()),
        Response::BlockDevices(sample_devices()),
        Response::Error(String::new()),
        Response::Error(String::from("/dev/missing: unknown superblock")),
        Response::Superblock(Superblock { uuid: None, label: None, filesystem: String::new() }),
        Response::Superblock(Superblock {
            uuid: Some(String::new()),
            label: Some(String::from("système")),
            filesystem: String::from("f2fs"),
        }),
    ];
    for response in responses {
        assert_eq!(decode_response(&encode_response(&response)), Some(response));
    }
}

#[test]
fn absent_and_empty_are_told_apart() {
    let absent = Response::Superblock(Superblock { uuid: None, label: None, filesystem: String::from("ext4") });
    let empty = Response::Superblock(Superblock {
        uuid: Some(String::new()),
        label: Some(String::new()),
        filesystem: String::from("ext4"),
    });
    assert_ne!(encode_response(&absent), encode_response(&empty));
    assert_eq!(decode_response(&encode_response(&absent)), Some(absent));
    assert_eq!(decode_response(&encode_response(&empty)), Some(empty));
}

#[test]
fn decoded_path_is_the_text_of_its_bytes() {
    let bytes = message(2, &text("/dev/nvme0n1p2"));
    assert_eq!(decode_request(&bytes), Some(Request::GetSuperblock(String::from("/dev/nvme0n1p2"))));
}

#[test]
fn empty_message_is_rejected() {
    assert_eq!(decode_request(&[]), None);
    assert_eq!(decode_response(&[]), None);
}

#[test]
fn truncated_messages_are_rejected() {
    let request = encode_request(&Request::GetSuperblock(String::from("/dev/sda1")));
    for cut in 0..request.len() {
        assert_eq!(decode_request(&request[..cut]), None);
    }
    let response = encode_response(&Response::BlockDevices(sample_devices()));
    for cut in 0..response.len() {
        assert_eq!(decode_response(&response[..cut]), None);
    }
}

#[test]
fn bytes_behind_the_record_are_rejected() {
    let mut request = encode_request(&Request::Shutdown);
    request.push(0);
    assert_eq!(decode_request(&request), None);
    let mut response = encode_response(&Response::Error(String::from("x")));
    response.push(7);
    assert_eq!(decode_response(&response), None);
}

#[test]
fn unknown_tags_are_rejected() {
    assert_eq!(decode_request(&message(3, &[])), None);
    assert_eq!(decode_request(&message(255, &[])), None);
    assert_eq!(decode_response(&message(3, &text("x"))), None);
}

#[test]
fn invalid_utf8_is_rejected() {
    let mut payload = le64(2);
    payload.extend_from_slice(&[0xC3, 0x28]);
    assert_eq!(decode_request(&message(2, &payload)), None);
    assert_eq!(decode_response(&message(1, &payload)), None);
    let mut surrogate = le64(3);
    surrogate.extend_from_slice(&[0xED, 0xA0, 0x80]);
    assert_eq!(decode_request(&message(2, &surrogate)), None);
    let mut overlong = le64(2);
    overlong.extend_from_slice(&[0xC0, 0x80]);
    assert_eq!(decode_request(&message(2, &overlong)), None);
    let mut beyond = le64(4);
    beyond.extend_from_slice(&[0xF4, 0x90, 0x80, 0x80]);
    assert_eq!(decode_request(&message(2, &beyond)), None);
    let mut cut = le64(2);
    cut.extend_from_slice(&[0xE2, 0x82]);
    assert_eq!(decode_request(&message(2, &cut)), None);
}

#[test]
fn bad_option_tag_is_rejected() {
    let mut payload = vec![2];
    payload.extend_from_slice(&text("ab"));
    payload.push(0);
    payload.extend_from_slice(&text("ext4"));
    assert_eq!(decode_response(&message(2, &payload)), None);
}

#[test]
fn string_longer_than_its_record_is_rejected() {
    let mut payload = le64(100);
    payload.extend_from_slice(b"short");
    assert_eq!(decode_request(&message(2, &payload)), None);
    assert_eq!(decode_request(&message(2, &le64(u64::MAX))), None);
}

#[test]
fn sequence_shorter_than_its_count_is_rejected() {
    assert_eq!(decode_response(&message(0, &le64(1))), None);
    assert_eq!(decode_response(&message(0, &le64(u64::MAX))), None);
}

#[test]
fn payload_of_a_request_without_fields_is_passed_over() {
    assert_eq!(decode_request(&message(0, &[9, 9, 9])), Some(Request::GetBlockDevices));
    assert_eq!(decode_request(&message(1, &text("later"))), Some(Request::Shutdown));
}

#[test]
fn fields_added_behind_the_known_ones_are_passed_over() {
    let mut payload = text("/dev/sda1");
    payload.extend_from_slice(&[1, 2, 3, 4]);
    assert_eq!(
        decode_request(&message(2, &payload)),
        Some(Request::GetSuperblock(String::from("/dev/sda1")))
    );
    let mut superblock = vec![0, 0];
    superblock.extend_from_slice(&text("ext4"));
    superblock.extend_from_slice(&text("a field of a later version"));
    assert_eq!(
        decode_response(&message(2, &superblock)),
        Some(Response::Superblock(Superblock { uuid: None, label: None, filesystem: String::from("ext4") }))
    );
}

#[test]
fn partition_with_added_fields_is_read() {
    let mut partition = Vec::new();
    partition.extend_from_slice(&text("sda1"));
    partition.extend_from_slice(&text("/dev/sda1"));
    partition.extend_from_slice(&1u32.to_le_bytes());
    partition.extend_from_slice(&le64(10));
    partition.extend_from_slice(&le64(30));
    partition.extend_from_slice(&le64(20));
    partition.extend_from_slice(&[0xAA; 5]);
    let mut body = Vec::new();
    body.extend_from_slice(&text("/dev/sda"));
    body.extend_from_slice(&le64(4096));
    body.extend_from_slice(&le64(8));
    body.push(0);
    body.extend_from_slice(&le64(3));
    body.extend_from_slice(&[1, 2, 3]);
    body.push(0);
    body.extend_from_slice(&le64(1));
    body.extend_from_slice(&le64(partition.len() as u64));
    body.extend_from_slice(&partition);
    body.extend_from_slice(&[0xBB; 7]);
    let mut payload = le64(1);
    payload.extend_from_slice(&le64(body.len() as u64));
    payload.extend_from_slice(&body);
    let expected = BlockDevice {
        path: String::from("/dev/sda"),
        size: 4096,
        sectors: 8,
        kind: BlockDeviceKind::Disk,
        model: None,
        partitions: vec![Partition {
            name: String::from("sda1"),
            path: String::from("/dev/sda1"),
            number: 1,
            start: 10,
            end: 30,
            size: 20,
        }],
    };
    assert_eq!(decode_response(&message(0, &payload)), Some(Response::BlockDevices(vec![expected])));
}

#[test]
fn device_without_partitions_field_has_none() {
    let mut body = Vec::new();
    body.extend_from_slice(&text("/dev/loop3"));
    body.extend_from_slice(&le64(0));
    body.extend_from_slice(&le64(0));
    body.push(1);
    body.extend_from_slice(&le64(1));
    body.push(0);
    body.push(1);
    body.extend_from_slice(&text("QEMU"));
    let mut payload = le64(1);
    payload.extend_from_slice(&le64(body.len() as u64));
    payload.extend_from_slice(&body);
    let expected = BlockDevice {
        path: String::from("/dev/loop3"),
        size: 0,
        sectors: 0,
        kind: BlockDeviceKind::Loopback { backing_file: None },
        model: Some(String::from("QEMU")),
        partitions: Vec::new(),
    };
    assert_eq!(decode_response(&message(0, &payload)), Some(Response::BlockDevices(vec![expected])));
}

#[test]
fn unknown_device_kind_is_rejected() {
    let mut body = Vec::new();
    body.extend_from_slice(&text("/dev/x"));
    body.extend_from_slice(&le64(0));
    body.extend_from_slice(&le64(0));
    body.push(2);
    body.extend_from_slice(&le64(0));
    body.push(0);
    body.extend_from_slice(&le64(0));
    let mut payload = le64(1);
    payload.extend_from_slice(&le64(body.len() as u64));
    payload.extend_from_slice(&body);
    assert_eq!(decode_response(&message(0, &payload)), None);
}
