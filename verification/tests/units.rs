//! The parts of the driver that need no card.

use sdmmc_spi::bus::{Action, Next, Reply};
use sdmmc_spi::command::{command_frame, Acmd, Command};
use sdmmc_spi::data::{check_crc, make_crc_trailer, DataIn, DataOut};
use sdmmc_spi::delay::{
    Delay, DEFAULT_COMMAND_RETRIES, DEFAULT_READ_RETRIES, DEFAULT_WRITE_RETRIES, TICK_US,
};
use sdmmc_spi::inner::address;
use sdmmc_spi::outcome::{Output, Step};
use sdmmc_spi::poll::{Poll, Until};
use sdmmc_spi::proto::{
    crc16, crc7, ACMD23, ACMD41, CMD0, CMD12, CMD13, CMD17, CMD18, CMD24, CMD25, CMD55, CMD58,
    CMD59, CMD8, CMD9, DATA_RES_ACCEPTED, DATA_RES_MASK, DATA_START_BLOCK, R1_IDLE_STATE,
    R1_ILLEGAL_COMMAND, R1_READY_STATE, STOP_TRAN_TOKEN, WRITE_MULTIPLE_TOKEN,
};
use sdmmc_spi::register::{answer, Csd, CsdV1, CsdV2, Query};
use sdmmc_spi::sdcard::SdCard;
use sdmmc_spi::types::{
    AcquireOpts, Block, BlockCount, BlockIdx, CardType, DummyCsPin, Error,
};

const CSD_V1: [u8; 16] = [
    0x00, 0x26, 0x00, 0x32, 0x5F, 0x59, 0x83, 0xC8, 0xAD, 0xDB, 0xCF, 0xFF, 0xD2, 0x40, 0x40, 0xA5,
];

const CSD_V2: [u8; 16] = [
    0x40, 0x0E, 0x00, 0x32, 0x5B, 0x59, 0x00, 0x00, 0x1D, 0x69, 0x7F, 0x80, 0x0A, 0x40, 0x00, 0x8B,
];

#[test]
fn the_constants_of_the_protocol() {
    assert_eq!(
        [CMD0, CMD8, CMD9, CMD12, CMD13, CMD17, CMD18, CMD24, CMD25, CMD55, CMD58, CMD59],
        [0, 8, 9, 12, 13, 17, 18, 24, 25, 55, 58, 59]
    );
    assert_eq!([ACMD23, ACMD41], [23, 41]);
    assert_eq!([DATA_START_BLOCK, WRITE_MULTIPLE_TOKEN, STOP_TRAN_TOKEN], [0xFE, 0xFC, 0xFD]);
    assert_eq!([R1_READY_STATE, R1_IDLE_STATE, R1_ILLEGAL_COMMAND], [0x00, 0x01, 0x04]);
    assert_eq!([DATA_RES_MASK, DATA_RES_ACCEPTED], [0x1F, 0x05]);
    assert_eq!(R1_ILLEGAL_COMMAND | R1_IDLE_STATE, sdmmc_spi::acquire::R1_ILLEGAL_IDLE);
}

#[test]
fn crc7_of_well_known_frames() {
    assert_eq!(crc7(&[0x40, 0, 0, 0, 0]), 0x95);
    assert_eq!(crc7(&[0x48, 0, 0, 0x01, 0xAA]), 0x87);
    assert_eq!(crc7(&[]), 0x01);
}

#[test]
fn crc16_of_well_known_messages() {
    assert_eq!(crc16(b"123456789"), 0x31C3);
    assert_eq!(crc16(&[]), 0x0000);
    assert_eq!(crc16(&[0xFF; 512]), 0x7FA1);
    assert_eq!(crc16(&[0x00; 512]), 0x0000);
}

#[test]
fn crc16_differs_for_every_flipped_bit() {
    let mut data = [0u8; 64];
    for (i, byte) in data.iter_mut().enumerate() {
        *byte = (i as u8).wrapping_mul(37);
    }
    let crc = crc16(&data);
    for at in 0..data.len() {
        for bit in 0..8 {
            let mut flipped = data;
            flipped[at] ^= 1 << bit;
            assert_ne!(crc16(&flipped), crc);
        }
    }
}

#[test]
fn frames_carry_index_argument_and_checksum() {
    assert_eq!(command_frame(CMD0, 0), vec![0x40, 0x00, 0x00, 0x00, 0x00, 0x95]);
    assert_eq!(command_frame(CMD8, 0x1AA), vec![0x48, 0x00, 0x00, 0x01, 0xAA, 0x87]);
    let frame = command_frame(CMD17, 0x1234_5678);
    assert_eq!(&frame[..5], &[0x51, 0x12, 0x34, 0x56, 0x78]);
    assert_eq!(frame[5], crc7(&frame[..5]));
    assert_eq!(frame[5] & 1, 1);
    assert_eq!(command_frame(ACMD41, 0x4000_0000)[..5], [0x69, 0x40, 0x00, 0x00, 0x00]);
}

#[test]
fn addresses_follow_the_kind_of_card() {
    assert_eq!(address(CardType::SDHC, BlockIdx(100)), 100);
    assert_eq!(address(CardType::SD1, BlockIdx(100)), 51_200);
    assert_eq!(address(CardType::SD2, BlockIdx(100)), 51_200);
    assert_eq!(address(CardType::SD2, BlockIdx(0)), 0);
    assert_eq!(address(CardType::SD2, BlockIdx(0x7F_FFFF)), 0xFFFF_FE00);
    assert_eq!(address(CardType::SDHC, BlockIdx(u32::MAX)), u32::MAX);
    assert_eq!(address(CardType::SD1, BlockIdx(0x80_0001)), 512);
}

#[test]
fn budgets_count_down() {
    assert_eq!(DEFAULT_READ_RETRIES, 10_000);
    assert_eq!(DEFAULT_WRITE_RETRIES, 50_000);
    assert_eq!(DEFAULT_COMMAND_RETRIES, 10_000);
    assert_eq!(TICK_US, 10);
    assert_eq!(Delay::new_read().retries_left(), 10_000);
    assert_eq!(Delay::new_write().retries_left(), 50_000);
    assert_eq!(Delay::new_command().retries_left(), 10_000);
    let mut delay = Delay::new(2);
    assert_eq!(delay.delay(Error::ReadError), Ok(()));
    assert_eq!(delay.retries_left(), 1);
    assert_eq!(delay.delay(Error::ReadError), Ok(()));
    assert_eq!(delay.retries_left(), 0);
    assert_eq!(delay.delay(Error::ReadError), Err(Error::ReadError));
    assert_eq!(delay.delay(Error::TimeoutCommand(7)), Err(Error::TimeoutCommand(7)));
    assert_eq!(delay.retries_left(), 0);
    assert_eq!(Delay::new(0).delay(Error::CardNotFound), Err(Error::CardNotFound));
}

#[test]
fn default_options() {
    let opts = AcquireOpts::default();
    assert!(opts.use_crc);
    assert_eq!(opts.acquire_retries, 50);
    let card = SdCard::new();
    assert!(card.options().use_crc);
    assert_eq!(card.options().acquire_retries, 50);
    assert_eq!(card.card_type(), None);
    assert!(!card.is_busy());
}

#[test]
fn register_of_layout_1() {
    let csd = CsdV1::from_bytes(&CSD_V1);
    assert_eq!(csd.data, CSD_V1);
    assert_eq!(csd.device_size(), 3874);
    assert_eq!(csd.device_size_multiplier(), 7);
    assert_eq!(csd.read_block_length(), 9);
    assert!(csd.erase_single_block_enabled());
    assert_eq!(csd.card_capacity_bytes(), 1_015_808_000);
    assert_eq!(csd.card_capacity_blocks(), 1_984_000);
    assert_eq!(CsdV1::new().data, [0u8; 16]);
    assert_eq!(CsdV1::new().card_capacity_bytes(), 4);
    assert_eq!(CsdV1::new().card_capacity_blocks(), 0);
}

#[test]
fn register_of_layout_2() {
    let csd = CsdV2::from_bytes(&CSD_V2);
    assert_eq!(csd.device_size(), 7529);
    assert!(csd.erase_single_block_enabled());
    assert_eq!(csd.card_capacity_bytes(), 3_947_888_640);
    assert_eq!(csd.card_capacity_blocks(), 7_710_720);
    assert_eq!(CsdV2::new().data[0], 0x40);
    assert_eq!(CsdV2::new().card_capacity_blocks(), 1024);
    let mut full = CSD_V2;
    full[7] = 0xFF;
    full[8] = 0xFF;
    full[9] = 0xFF;
    full[10] = 0x00;
    let csd = CsdV2::from_bytes(&full);
    assert_eq!(csd.device_size(), 0x3F_FFFF);
    assert_eq!(csd.card_capacity_bytes(), 1 << 41);
    assert_eq!(csd.card_capacity_blocks(), u32::MAX);
    assert!(!csd.erase_single_block_enabled());
}

#[test]
fn register_of_either_layout() {
    let one = Csd::V1(CsdV1::from_bytes(&CSD_V1));
    let two = Csd::V2(CsdV2::from_bytes(&CSD_V2));
    assert_eq!(one.card_capacity_blocks(), 1_984_000);
    assert_eq!(two.card_capacity_blocks(), 7_710_720);
    assert_eq!(one.card_capacity_bytes(), 1_015_808_000);
    assert_eq!(two.card_capacity_bytes(), 3_947_888_640);
    assert!(one.erase_single_block_enabled() && two.erase_single_block_enabled());
    assert!(matches!(
        answer(CardType::SD1, Query::Blocks, &CSD_V1),
        Output::Count(BlockCount(1_984_000))
    ));
    assert!(matches!(
        answer(CardType::SDHC, Query::Bytes, &CSD_V2),
        Output::Size(3_947_888_640)
    ));
    assert!(matches!(
        answer(CardType::SD2, Query::EraseSingleBlock, &CSD_V2),
        Output::Flag(true)
    ));
}

#[test]
fn the_dummy_pin_never_fails() {
    let mut pin = DummyCsPin;
    assert_eq!(pin.set_low(), Ok(()));
    assert_eq!(pin.set_high(), Ok(()));
    assert_eq!(pin, DummyCsPin);
}

#[test]
fn blocks_hold_512_bytes() {
    let mut bytes = vec![0u8; 512];
    for (i, byte) in bytes.iter_mut().enumerate() {
        *byte = (i % 256) as u8;
    }
    let block = Block::from_bytes(&bytes);
    assert_eq!(block.contents.to_vec(), bytes);
    assert_eq!(block.to_vec(), bytes);
    assert_eq!(Block::new().contents, [0u8; 512]);
}

#[test]
fn checksums_are_compared_big_endian() {
    let payload = [1u8, 2, 3, 4, 5];
    let crc = crc16(&payload);
    let (hi, lo) = ((crc >> 8) as u8, (crc & 0xFF) as u8);
    assert_eq!(check_crc(true, &payload, hi, lo), Ok(()));
    assert_eq!(check_crc(false, &payload, hi, lo), Ok(()));
    assert_eq!(check_crc(false, &payload, 0, 0), Ok(()));
    let wrong = check_crc(true, &payload, lo, hi);
    assert_eq!(wrong, Err(Error::CrcError(((lo as u16) << 8) | hi as u16, crc)));
    assert_eq!(make_crc_trailer(true, &payload), vec![hi, lo]);
    assert_eq!(make_crc_trailer(false, &payload), vec![0xFF, 0xFF]);
}

#[test]
fn a_poll_ends_on_the_byte_it_waits_for() {
    assert!(Until::Idle.accepts(0xFF) && !Until::Idle.accepts(0xFE));
    assert!(Until::Response.accepts(0x7F) && !Until::Response.accepts(0x80));
    assert!(Until::Token.accepts(0x00) && !Until::Token.accepts(0xFF));
    let (poll, action) = Poll::start(Until::Response, Delay::new(1), Error::TimeoutCommand(9));
    assert!(matches!(action, Action::Transfer(0xFF)));
    let poll = match poll.step(Reply::Byte(0xFF)) {
        Next::Need(poll, Action::DelayUs(10)) => poll,
        _ => panic!("a byte that is not a response costs a retry"),
    };
    let poll = match poll.step(Reply::Done) {
        Next::Need(poll, Action::Transfer(0xFF)) => poll,
        _ => panic!("after the pause the bus is read again"),
    };
    assert!(matches!(poll.step(Reply::Byte(0x05)), Next::Done(Ok(0x05))));
}

#[test]
fn a_poll_times_out_when_its_budget_is_spent() {
    let (poll, _) = Poll::start(Until::Idle, Delay::new(1), Error::TimeoutWaitNotBusy);
    let poll = match poll.step(Reply::Byte(0x00)) {
        Next::Need(poll, Action::DelayUs(10)) => poll,
        _ => panic!("a busy card costs a retry"),
    };
    let poll = match poll.step(Reply::Done) {
        Next::Need(poll, _) => poll,
        _ => panic!("after the pause the bus is read again"),
    };
    assert!(matches!(poll.step(Reply::Byte(0x00)), Next::Done(Err(Error::TimeoutWaitNotBusy))));
    let (poll, _) = Poll::start(Until::Idle, Delay::new(0), Error::TimeoutWaitNotBusy);
    assert!(matches!(poll.step(Reply::Byte(0x00)), Next::Done(Err(Error::TimeoutWaitNotBusy))));
    let (poll, _) = Poll::start(Until::Idle, Delay::new(5), Error::TimeoutWaitNotBusy);
    assert!(matches!(poll.step(Reply::Failed), Next::Done(Err(Error::Transport))));
    let (poll, _) = Poll::start(Until::Idle, Delay::new(5), Error::TimeoutWaitNotBusy);
    assert!(matches!(poll.step(Reply::Done), Next::Done(Err(Error::Transport))));
}

fn actions_of_command(
    cmd: u8,
    arg: u32,
    replies: Vec<Reply>,
) -> (Vec<String>, Option<Result<u8, Error>>) {
    let (mut command, first) = Command::start(cmd, arg);
    let mut seen = vec![format!("{:?}", first)];
    for reply in replies {
        match command.step(reply) {
            Next::Need(next, action) => {
                seen.push(format!("{:?}", action));
                command = next;
            }
            Next::Done(result) => return (seen, Some(result)),
        }
    }
    (seen, None)
}

#[test]
fn a_command_waits_sends_and_polls() {
    let (seen, result) = actions_of_command(
        CMD17,
        5,
        vec![
            Reply::Byte(0x00),
            Reply::Done,
            Reply::Byte(0xFF),
            Reply::Done,
            Reply::Byte(0xFF),
            Reply::Done,
            Reply::Byte(0x00),
        ],
    );
    assert_eq!(
        seen,
        vec![
            "Transfer(255)".to_string(),
            "DelayUs(10)".to_string(),
            "Transfer(255)".to_string(),
            format!("Write({:?})", command_frame(CMD17, 5)),
            "Transfer(255)".to_string(),
            "DelayUs(10)".to_string(),
            "Transfer(255)".to_string(),
        ]
    );
    assert_eq!(result, Some(Ok(0x00)));
}

#[test]
fn the_reset_command_does_not_wait() {
    let (seen, result) = actions_of_command(CMD0, 0, vec![Reply::Done, Reply::Byte(0x01)]);
    assert_eq!(seen, vec!["Write([64, 0, 0, 0, 0, 149])", "Transfer(255)"]);
    assert_eq!(result, Some(Ok(0x01)));
}

#[test]
fn the_stop_command_discards_a_byte() {
    let (seen, result) = actions_of_command(
        CMD12,
        0,
        vec![Reply::Done, Reply::Byte(0x00), Reply::Byte(0xFF), Reply::Done, Reply::Byte(0x00)],
    );
    assert_eq!(seen.len(), 5);
    assert!(seen[0].starts_with("Write([76, 0, 0, 0, 0,"));
    assert_eq!(&seen[1..], ["Transfer(255)", "Transfer(255)", "DelayUs(10)", "Transfer(255)"]);
    assert_eq!(result, Some(Ok(0x00)));
}

#[test]
fn a_command_without_response_times_out() {
    let mut replies = vec![Reply::Byte(0xFF), Reply::Done];
    for _ in 0..10_000 {
        replies.push(Reply::Byte(0xFF));
        replies.push(Reply::Done);
    }
    replies.push(Reply::Byte(0xFF));
    let (seen, result) = actions_of_command(CMD9, 0, replies);
    assert_eq!(seen.len(), 2 + 20_001);
    assert_eq!(result, Some(Err(Error::TimeoutCommand(CMD9))));
}

#[test]
fn an_application_command_is_prefixed() {
    let (mut acmd, first) = Acmd::start(ACMD41, 0x4000_0000);
    assert!(matches!(first, Action::Transfer(0xFF)));
    let mut frames = Vec::new();
    let replies = vec![
        Reply::Byte(0xFF),
        Reply::Done,
        Reply::Byte(0x01),
        Reply::Byte(0xFF),
        Reply::Done,
        Reply::Byte(0x00),
    ];
    let mut result = None;
    for reply in replies {
        match acmd.step(reply) {
            Next::Need(next, action) => {
                if let Action::Write(frame) = &action {
                    frames.push(frame.clone());
                }
                acmd = next;
            }
            Next::Done(r) => {
                result = Some(r);
                break;
            }
        }
    }
    assert_eq!(frames, vec![command_frame(CMD55, 0), command_frame(ACMD41, 0x4000_0000)]);
    assert_eq!(result, Some(Ok(0x00)));
}

#[test]
fn a_data_packet_is_read() {
    let payload = vec![9u8, 8, 7, 6];
    let crc = crc16(&payload);
    let (data, first) = DataIn::start(4, true);
    assert!(matches!(first, Action::Transfer(0xFF)));
    let data = match data.step(Reply::Byte(0xFE)) {
        Next::Need(data, Action::Read(4)) => data,
        _ => panic!("the payload follows the token"),
    };
    let data = match data.step(Reply::Bytes(payload.clone())) {
        Next::Need(data, Action::Read(2)) => data,
        _ => panic!("the checksum follows the payload"),
    };
    match data.step(Reply::Bytes(vec![(crc >> 8) as u8, (crc & 0xFF) as u8])) {
        Next::Done(Ok(bytes)) => assert_eq!(bytes, payload),
        _ => panic!("a packet with the right checksum is accepted"),
    }
    let (data, _) = DataIn::start(4, true);
    assert!(matches!(data.step(Reply::Byte(0xFC)), Next::Done(Err(Error::ReadError))));
}

#[test]
fn a_data_packet_is_written() {
    let payload = vec![9u8, 8, 7, 6];
    let crc = crc16(&payload);
    let (data, first) = DataOut::start(0xFE, payload.clone(), true);
    assert!(matches!(first, Action::Transfer(0xFE)));
    let data = match data.step(Reply::Byte(0xFF)) {
        Next::Need(data, Action::Write(bytes)) => {
            assert_eq!(bytes, payload);
            data
        }
        _ => panic!("the payload follows the token"),
    };
    let data = match data.step(Reply::Done) {
        Next::Need(data, Action::Write(bytes)) => {
            assert_eq!(bytes, vec![(crc >> 8) as u8, (crc & 0xFF) as u8]);
            data
        }
        _ => panic!("the checksum follows the payload"),
    };
    let data = match data.step(Reply::Done) {
        Next::Need(data, Action::Transfer(0xFF)) => data,
        _ => panic!("the data response follows the checksum"),
    };
    assert!(matches!(data.step(Reply::Byte(0xE5)), Next::Done(Ok(()))));
    let responses = [(0x05u8, true), (0xE5, true), (0x0B, false), (0x0D, false), (0xFF, false)];
    for (status, accepted) in responses {
        let (data, _) = DataOut::start(0xFC, vec![1], false);
        let data = match data.step(Reply::Byte(0xFF)) {
            Next::Need(data, _) => data,
            _ => panic!(),
        };
        let data = match data.step(Reply::Done) {
            Next::Need(data, _) => data,
            _ => panic!(),
        };
        let data = match data.step(Reply::Done) {
            Next::Need(data, _) => data,
            _ => panic!(),
        };
        match data.step(Reply::Byte(status)) {
            Next::Done(Ok(())) => assert!(accepted),
            Next::Done(Err(Error::WriteError)) => assert!(!accepted),
            _ => panic!("a data response is accepted or not"),
        }
    }
}

#[test]
fn a_recorded_single_block_read() {
    let mut payload = vec![0u8; 512];
    for (i, byte) in payload.iter_mut().enumerate() {
        *byte = (i * 7 % 256) as u8;
    }
    let crc = crc16(&payload);
    let mut driver = SdCard::new();
    driver.mark_card_as_init(CardType::SDHC);
    let first = driver.read(1, BlockIdx(100));
    let replies = vec![
        Reply::Done,
        Reply::Byte(0xFF),
        Reply::Done,
        Reply::Byte(0x00),
        Reply::Byte(0xFE),
        Reply::Bytes(payload.clone()),
        Reply::Bytes(vec![(crc >> 8) as u8, (crc & 0xFF) as u8]),
        Reply::Done,
    ];
    let (actions, result) = driver.replay(first, replies);
    let seen: Vec<String> = actions.iter().map(|a| format!("{:?}", a)).collect();
    assert_eq!(
        seen,
        vec![
            "CsLow".to_string(),
            "Transfer(255)".to_string(),
            format!("Write({:?})", command_frame(CMD17, 100)),
            "Transfer(255)".to_string(),
            "Transfer(255)".to_string(),
            "Read(512)".to_string(),
            "Read(2)".to_string(),
            "CsHigh".to_string(),
        ]
    );
    match result {
        Some(Ok(Output::Blocks(blocks))) => {
            assert_eq!(blocks.len(), 1);
            assert_eq!(blocks[0].contents.to_vec(), payload);
        }
        _ => panic!("the read ends with the block"),
    }
    assert!(!driver.is_busy());
}

#[test]
fn a_recording_that_ends_early_leaves_the_operation_waiting() {
    let mut driver = SdCard::new();
    let first = driver.num_blocks();
    let (actions, result) = driver.replay(first, vec![Reply::Done, Reply::Done]);
    assert!(result.is_none());
    assert!(driver.is_busy());
    assert_eq!(actions.len(), 3);
    assert!(matches!(actions[0], Action::CsHigh));
    assert!(matches!(&actions[1], Action::Write(bytes) if *bytes == vec![0xFF; 10]));
    assert!(matches!(actions[2], Action::CsLow));
    let step = driver.advance(Reply::Failed);
    assert!(matches!(step, Step::Need(Action::CsHigh)));
    let (actions, result) = driver.replay(step, vec![Reply::Done, Reply::Failed, Reply::Done]);
    assert_eq!(actions.len(), 2);
    assert!(matches!(result, Some(Err(Error::GpioError))));
    assert!(!driver.is_busy());
}
