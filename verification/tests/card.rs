//! The driver against a simulated card.

use sdmmc_spi::bus::{Action, Reply};
use sdmmc_spi::multiblock::{SdCardMultiBlockWriteRead, State};
use sdmmc_spi::outcome::{Output, Step};
use sdmmc_spi::proto::{crc16, crc7};
use sdmmc_spi::sdcard::SdCard;
use sdmmc_spi::types::{AcquireOpts, Block, BlockCount, BlockIdx, CardType, Error};
use std::collections::{HashMap, VecDeque};

/// What the simulated card is told to do wrong.
#[derive(Default)]
struct Faults {
    /// Never answer anything.
    silent: bool,
    /// Answer the reset command with this instead of the idle state.
    reset_r1: Option<u8>,
    /// Answer the CRC-mode command with this instead of the idle state.
    crc_mode_r1: Option<u8>,
    /// Echo this in the last byte of the answer to the interface probe.
    probe_echo: Option<u8>,
    /// Never report that initialisation has finished.
    never_ready: bool,
    /// Answer the register commands with this instead of zero.
    ocr_r1: Option<u8>,
    csd_r1: Option<u8>,
    /// Send this in place of the data start token.
    read_token: Option<u8>,
    /// Send no data token at all.
    no_read_token: bool,
    /// Flip the lowest bit of this byte of every payload sent.
    flip_payload_byte: Option<usize>,
    /// Answer the next data packet received with this data response.
    data_response: Option<u8>,
    /// Stay busy for ever after the next data packet.
    stay_busy: bool,
    /// Give no response to this command.
    mute_command: Option<u8>,
    /// Answer the status command with these two bytes.
    status: Option<(u8, u8)>,
    /// Fail every SPI transfer from now on.
    spi_broken: bool,
    /// Fail every change of chip-select from now on.
    pin_broken: bool,
}

#[derive(Clone, Copy, PartialEq, Debug)]
enum Kind {
    Sd1,
    Sd2,
    Sdhc,
}

#[derive(PartialEq, Debug)]
enum Mode {
    Command,
    AwaitSingle(u32),
    AwaitMulti(u32),
    Receiving { block: u32, multi: bool, got: Vec<u8> },
    Streaming(u32),
}

struct Card {
    kind: Kind,
    faults: Faults,
    selected: bool,
    crc_on: bool,
    app: bool,
    ready_after: u32,
    mode: Mode,
    frame: Vec<u8>,
    out: VecDeque<u8>,
    blocks: HashMap<u32, Vec<u8>>,
    csd: [u8; 16],
    commands: Vec<(u8, u32)>,
    actions: Vec<String>,
    delays: u64,
}

const CSD_V2: [u8; 16] = [
    0x40, 0x0E, 0x00, 0x32, 0x5B, 0x59, 0x00, 0x00, 0x1D, 0x69, 0x7F, 0x80, 0x0A, 0x40, 0x00, 0x8B,
];

const CSD_V1: [u8; 16] = [
    0x00, 0x26, 0x00, 0x32, 0x5F, 0x59, 0x83, 0xC8, 0xAD, 0xDB, 0xCF, 0xFF, 0xD2, 0x40, 0x40, 0xA5,
];

impl Card {
    fn new(kind: Kind) -> Card {
        Card {
            kind,
            faults: Faults::default(),
            selected: false,
            crc_on: false,
            app: false,
            ready_after: 2,
            mode: Mode::Command,
            frame: Vec::new(),
            out: VecDeque::new(),
            blocks: HashMap::new(),
            csd: if kind == Kind::Sd1 { CSD_V1 } else { CSD_V2 },
            commands: Vec::new(),
            actions: Vec::new(),
            delays: 0,
        }
    }

    fn block_of(&self, arg: u32) -> u32 {
        match self.kind {
            Kind::Sdhc => arg,
            _ => {
                assert_eq!(arg % 512, 0, "a byte address must be block aligned");
                arg / 512
            }
        }
    }

    fn stored(&self, block: u32) -> Vec<u8> {
        match self.blocks.get(&block) {
            Some(bytes) => bytes.clone(),
            None => vec![0u8; 512],
        }
    }

    fn packet(&self, payload: &[u8]) -> Vec<u8> {
        let mut bytes = Vec::new();
        if self.faults.no_read_token {
            return bytes;
        }
        bytes.push(self.faults.read_token.unwrap_or(0xFE));
        let crc = crc16(payload);
        let mut sent = payload.to_vec();
        if let Some(at) = self.faults.flip_payload_byte {
            sent[at] ^= 0x01;
        }
        bytes.extend_from_slice(&sent);
        bytes.push((crc >> 8) as u8);
        bytes.push((crc & 0xFF) as u8);
        bytes
    }

    fn respond(&mut self, bytes: &[u8]) {
        self.out.clear();
        self.out.extend(bytes.iter().copied());
    }

    fn execute(&mut self, cmd: u8, arg: u32) {
        let app = self.app;
        self.app = false;
        self.commands.push((cmd, arg));
        if self.faults.silent || self.faults.mute_command == Some(cmd) {
            self.out.clear();
            return;
        }
        match (app, cmd) {
            (_, 0) => {
                self.mode = Mode::Command;
                self.crc_on = false;
                let r1 = self.faults.reset_r1.unwrap_or(0x01);
                self.respond(&[r1]);
            }
            (_, 59) => {
                self.crc_on = arg & 1 == 1;
                let r1 = self.faults.crc_mode_r1.unwrap_or(0x01);
                self.respond(&[r1]);
            }
            (_, 8) => {
                if self.kind == Kind::Sd1 {
                    self.respond(&[0x05]);
                } else {
                    let echo = self.faults.probe_echo.unwrap_or((arg & 0xFF) as u8);
                    self.respond(&[0x01, 0x00, 0x00, 0x01, echo]);
                }
            }
            (_, 55) => {
                self.app = true;
                self.respond(&[0x01]);
            }
            (true, 41) => {
                if self.faults.never_ready || self.ready_after > 0 {
                    self.ready_after = self.ready_after.saturating_sub(1);
                    self.respond(&[0x01]);
                } else {
                    self.respond(&[0x00]);
                }
            }
            (true, 23) => self.respond(&[0x00]),
            (_, 58) => {
                let r1 = self.faults.ocr_r1.unwrap_or(0x00);
                let high = if self.kind == Kind::Sdhc { 0xC0 } else { 0x80 };
                self.respond(&[r1, high, 0xFF, 0x80, 0x00]);
            }
            (_, 9) => {
                let r1 = self.faults.csd_r1.unwrap_or(0x00);
                let mut bytes = vec![r1];
                bytes.extend(self.packet(&self.csd.clone()));
                self.respond(&bytes);
            }
            (_, 13) => {
                let (r1, r2) = self.faults.status.unwrap_or((0x00, 0x00));
                self.respond(&[r1, r2]);
            }
            (_, 17) => {
                let block = self.block_of(arg);
                let mut bytes = vec![0x00];
                bytes.extend(self.packet(&self.stored(block)));
                self.respond(&bytes);
            }
            (_, 18) => {
                self.mode = Mode::Streaming(self.block_of(arg));
                self.respond(&[0x00]);
            }
            (_, 12) => {
                self.mode = Mode::Command;
                self.respond(&[0xFF, 0x00]);
            }
            (_, 24) => {
                self.mode = Mode::AwaitSingle(self.block_of(arg));
                self.respond(&[0x00]);
            }
            (_, 25) => {
                self.mode = Mode::AwaitMulti(self.block_of(arg));
                self.respond(&[0x00]);
            }
            _ => self.respond(&[0x04]),
        }
    }

    fn accept(&mut self, block: u32, packet: &[u8]) {
        let payload = &packet[..512];
        let received = ((packet[512] as u16) << 8) | packet[513] as u16;
        let mut response = 0xE5;
        if self.crc_on && received != crc16(payload) {
            response = 0xEB;
        }
        if let Some(forced) = self.faults.data_response.take() {
            response = forced;
        }
        if response & 0x1F == 0x05 {
            self.blocks.insert(block, payload.to_vec());
        }
        self.out.clear();
        self.out.push_back(response);
        self.out.push_back(0x00);
        self.out.push_back(0x00);
    }

    /// One byte in, one byte out.
    fn exchange(&mut self, sent: u8) -> u8 {
        if !self.selected {
            return 0xFF;
        }
        if self.faults.stay_busy && self.mode == Mode::Command && self.frame.is_empty() {
            if self.out.is_empty() {
                self.out.push_back(0x00);
            }
        }
        if let Mode::Streaming(block) = self.mode {
            if self.out.is_empty() && !self.faults.no_read_token {
                let bytes = self.packet(&self.stored(block));
                self.out.extend(bytes);
                self.mode = Mode::Streaming(block + 1);
            }
        }
        let answer = self.out.pop_front().unwrap_or(0xFF);
        let mode = std::mem::replace(&mut self.mode, Mode::Command);
        self.mode = match mode {
            Mode::Receiving { block, multi, mut got } => {
                got.push(sent);
                if got.len() == 514 {
                    self.accept(block, &got);
                    if multi {
                        Mode::AwaitMulti(block + 1)
                    } else {
                        Mode::Command
                    }
                } else {
                    Mode::Receiving { block, multi, got }
                }
            }
            Mode::AwaitSingle(block) if sent == 0xFE => {
                Mode::Receiving { block, multi: false, got: Vec::new() }
            }
            Mode::AwaitMulti(block) if sent == 0xFC => {
                Mode::Receiving { block, multi: true, got: Vec::new() }
            }
            Mode::AwaitMulti(_) if sent == 0xFD => {
                self.out.clear();
                self.out.push_back(0x00);
                self.out.push_back(0x00);
                Mode::Command
            }
            other => {
                if !self.frame.is_empty() || sent & 0xC0 == 0x40 {
                    self.frame.push(sent);
                }
                other
            }
        };
        if self.frame.len() == 6 {
            let frame = std::mem::take(&mut self.frame);
            assert_eq!(frame[5], crc7(&frame[..5]), "the frame checksum must be right");
            let arg = u32::from_be_bytes([frame[1], frame[2], frame[3], frame[4]]);
            self.execute(frame[0] & 0x3F, arg);
        }
        answer
    }

    fn perform(&mut self, action: &Action) -> Reply {
        match action {
            Action::CsHigh => {
                self.actions.push("cs high".to_string());
                if self.faults.pin_broken {
                    return Reply::Failed;
                }
                self.selected = false;
                Reply::Done
            }
            Action::CsLow => {
                self.actions.push("cs low".to_string());
                if self.faults.pin_broken {
                    return Reply::Failed;
                }
                self.selected = true;
                Reply::Done
            }
            Action::Transfer(out) => {
                self.actions.push(format!("transfer {:02x}", out));
                if self.faults.spi_broken {
                    return Reply::Failed;
                }
                Reply::Byte(self.exchange(*out))
            }
            Action::Write(bytes) => {
                self.actions.push(format!("write {}", bytes.len()));
                if self.faults.spi_broken {
                    return Reply::Failed;
                }
                for byte in bytes.iter() {
                    self.exchange(*byte);
                }
                Reply::Done
            }
            Action::Read(len) => {
                self.actions.push(format!("read {}", len));
                if self.faults.spi_broken {
                    return Reply::Failed;
                }
                let mut bytes = Vec::new();
                for _ in 0..*len {
                    bytes.push(self.exchange(0xFF));
                }
                Reply::Bytes(bytes)
            }
            Action::DelayUs(us) => {
                assert_eq!(*us, 10);
                self.delays += 1;
                Reply::Done
            }
        }
    }

    fn count(&self, cmd: u8) -> usize {
        self.commands.iter().filter(|(c, _)| *c == cmd).count()
    }

    fn has(&self, action: &str) -> bool {
        self.actions.iter().any(|a| a == action)
    }
}

fn finish(driver: &mut SdCard, card: &mut Card, first: Step) -> Result<Output, Error> {
    let mut step = first;
    loop {
        match step {
            Step::Need(action) => {
                let reply = card.perform(&action);
                step = driver.advance(reply);
            }
            Step::Done(result) => return result,
        }
    }
}

fn finish_session(
    session: &mut SdCardMultiBlockWriteRead,
    card: &mut Card,
    first: Step,
) -> Result<Output, Error> {
    let mut step = first;
    loop {
        match step {
            Step::Need(action) => {
                let reply = card.perform(&action);
                step = session.advance(reply);
            }
            Step::Done(result) => return result,
        }
    }
}

fn pattern(seed: u8) -> Block {
    let mut block = Block::new();
    for (i, byte) in block.contents.iter_mut().enumerate() {
        *byte = seed.wrapping_mul(31).wrapping_add((i % 251) as u8).wrapping_add((i / 251) as u8);
    }
    block
}

fn read_blocks(
    driver: &mut SdCard,
    card: &mut Card,
    count: usize,
    start: u32,
) -> Result<Vec<Block>, Error> {
    let first = driver.read(count, BlockIdx(start));
    match finish(driver, card, first)? {
        Output::Blocks(blocks) => Ok(blocks),
        other => panic!("a read must hand back blocks, not {:?}", other),
    }
}

fn write_blocks(
    driver: &mut SdCard,
    card: &mut Card,
    blocks: &[Block],
    start: u32,
) -> Result<(), Error> {
    let first = driver.write(blocks.to_vec(), BlockIdx(start));
    match finish(driver, card, first)? {
        Output::Unit => Ok(()),
        other => panic!("a write must hand back nothing, not {:?}", other),
    }
}

fn same(a: &[Block], b: &[Block]) -> bool {
    a.len() == b.len() && a.iter().zip(b.iter()).all(|(x, y)| x.contents == y.contents)
}

fn quick() -> AcquireOpts {
    AcquireOpts { use_crc: true, acquire_retries: 2 }
}

#[test]
fn acquire_a_fresh_sdhc_card() {
    let mut card = Card::new(Kind::Sdhc);
    let mut driver = SdCard::new();
    assert_eq!(driver.card_type(), None);
    let first = driver.get_card_type();
    let result = finish(&mut driver, &mut card, first);
    assert!(matches!(result, Ok(Output::Card(Some(CardType::SDHC)))));
    assert_eq!(driver.card_type(), Some(CardType::SDHC));
    assert_eq!(
        card.commands,
        vec![
            (0, 0),
            (59, 1),
            (8, 0x1AA),
            (55, 0),
            (41, 0x4000_0000),
            (55, 0),
            (41, 0x4000_0000),
            (55, 0),
            (41, 0x4000_0000),
            (58, 0),
        ]
    );
    assert_eq!(card.actions[0], "cs high");
    assert_eq!(card.actions[1], "write 10");
    assert_eq!(card.actions[2], "cs low");
    let n = card.actions.len();
    assert_eq!(card.actions[n - 2], "cs high");
    assert_eq!(card.actions[n - 1], "transfer ff");
    assert!(!card.selected);
}

#[test]
fn acquire_an_sd2_card() {
    let mut card = Card::new(Kind::Sd2);
    let mut driver = SdCard::new();
    let first = driver.get_card_type();
    let result = finish(&mut driver, &mut card, first);
    assert!(matches!(result, Ok(Output::Card(Some(CardType::SD2)))));
    assert_eq!(card.count(58), 1);
}

#[test]
fn acquire_an_sd1_card() {
    let mut card = Card::new(Kind::Sd1);
    let mut driver = SdCard::new();
    let first = driver.get_card_type();
    let result = finish(&mut driver, &mut card, first);
    assert!(matches!(result, Ok(Output::Card(Some(CardType::SD1)))));
    assert_eq!(card.count(58), 0);
    assert!(card.commands.contains(&(41, 0)));
    assert!(!card.selected);
}

#[test]
fn acquire_without_crc_mode() {
    let mut card = Card::new(Kind::Sdhc);
    let mut driver = SdCard::new_with_options(AcquireOpts { use_crc: false, acquire_retries: 50 });
    let first = driver.get_card_type();
    assert!(matches!(
        finish(&mut driver, &mut card, first),
        Ok(Output::Card(Some(CardType::SDHC)))
    ));
    assert_eq!(card.count(59), 0);
}

#[test]
fn sd1_addresses_are_byte_offsets() {
    let mut card = Card::new(Kind::Sd1);
    let mut driver = SdCard::new();
    let blocks = read_blocks(&mut driver, &mut card, 1, 7).unwrap();
    assert_eq!(blocks.len(), 1);
    assert!(card.commands.contains(&(17, 7 * 512)));
}

#[test]
fn read_one_block_from_sdhc() {
    let mut card = Card::new(Kind::Sdhc);
    card.blocks.insert(100, pattern(9).contents.to_vec());
    let mut driver = SdCard::new();
    driver.mark_card_as_init(CardType::SDHC);
    let blocks = read_blocks(&mut driver, &mut card, 1, 100).unwrap();
    assert!(same(&blocks, &[pattern(9)]));
    assert_eq!(card.commands, vec![(17, 100)]);
    assert_eq!(card.count(12), 0);
    assert!(card.has("read 512"));
    assert!(card.has("read 2"));
    assert_eq!(card.actions.first().unwrap(), "cs low");
    assert_eq!(card.actions.last().unwrap(), "cs high");
    assert!(!card.selected);
}

#[test]
fn read_four_blocks_from_sd2() {
    let mut card = Card::new(Kind::Sd2);
    for i in 0..4u32 {
        card.blocks.insert(i, pattern(i as u8 + 1).contents.to_vec());
    }
    let mut driver = SdCard::new();
    driver.mark_card_as_init(CardType::SD2);
    let blocks = read_blocks(&mut driver, &mut card, 4, 0).unwrap();
    assert!(same(&blocks, &[pattern(1), pattern(2), pattern(3), pattern(4)]));
    assert_eq!(card.commands, vec![(18, 0), (12, 0)]);
    assert_eq!(card.actions.iter().filter(|a| *a == "read 512").count(), 4);
    assert_eq!(card.actions.iter().filter(|a| *a == "read 2").count(), 4);
    assert!(!card.selected);
}

#[test]
fn read_no_blocks_opens_and_stops() {
    let mut card = Card::new(Kind::Sdhc);
    let mut driver = SdCard::new();
    driver.mark_card_as_init(CardType::SDHC);
    let blocks = read_blocks(&mut driver, &mut card, 0, 3).unwrap();
    assert!(blocks.is_empty());
    assert_eq!(card.commands, vec![(18, 3), (12, 0)]);
}

fn write_two_blocks_on(kind: Kind, known: CardType, arg: u32) {
    let mut card = Card::new(kind);
    card.crc_on = true;
    let mut driver = SdCard::new();
    driver.mark_card_as_init(known);
    let blocks = [pattern(1), pattern(2)];
    write_blocks(&mut driver, &mut card, &blocks, 200).unwrap();
    assert_eq!(card.commands, vec![(55, 0), (23, 2), (25, arg)]);
    let data: Vec<&String> = card
        .actions
        .iter()
        .filter(|a| {
            a.starts_with("write 5")
                || a.starts_with("write 2")
                || *a == "transfer fc"
                || *a == "transfer fd"
        })
        .collect();
    assert_eq!(
        data,
        vec![
            "transfer fc",
            "write 512",
            "write 2",
            "transfer fc",
            "write 512",
            "write 2",
            "transfer fd"
        ]
    );
    assert_eq!(card.actions.last().unwrap(), "cs high");
    assert_eq!(card.stored(200), pattern(1).contents.to_vec());
    assert_eq!(card.stored(201), pattern(2).contents.to_vec());
    assert!(!card.selected);
}

#[test]
fn write_two_blocks_to_sd2() {
    write_two_blocks_on(Kind::Sd2, CardType::SD2, 200 * 512);
}

#[test]
fn write_two_blocks_to_sdhc() {
    write_two_blocks_on(Kind::Sdhc, CardType::SDHC, 200);
}

#[test]
fn write_one_block_checks_the_status() {
    let mut card = Card::new(Kind::Sdhc);
    let mut driver = SdCard::new();
    driver.mark_card_as_init(CardType::SDHC);
    write_blocks(&mut driver, &mut card, &[pattern(5)], 12).unwrap();
    assert_eq!(card.commands, vec![(24, 12), (13, 0)]);
    assert!(card.has("transfer fe"));
    assert_eq!(card.stored(12), pattern(5).contents.to_vec());
    assert!(!card.selected);
}

#[test]
fn write_one_block_with_a_bad_status_fails() {
    for status in [(0x01u8, 0x00u8), (0x00, 0x20)] {
        let mut card = Card::new(Kind::Sdhc);
        card.faults.status = Some(status);
        let mut driver = SdCard::new();
        driver.mark_card_as_init(CardType::SDHC);
        let result = write_blocks(&mut driver, &mut card, &[pattern(5)], 12);
        assert!(matches!(result, Err(Error::WriteError)));
        assert!(!card.selected);
    }
}

fn round_trip(kind: Kind, count: usize, start: u32) {
    let mut card = Card::new(kind);
    let mut driver = SdCard::new();
    let blocks: Vec<Block> = (0..count).map(|i| pattern(40 + i as u8)).collect();
    write_blocks(&mut driver, &mut card, &blocks, start).unwrap();
    let back = read_blocks(&mut driver, &mut card, count, start).unwrap();
    assert!(same(&back, &blocks));
    assert!(!card.selected);
}

#[test]
fn write_then_read_yields_what_was_written() {
    for kind in [Kind::Sd1, Kind::Sd2, Kind::Sdhc] {
        for count in [1usize, 2, 8] {
            round_trip(kind, count, 0);
            round_trip(kind, count, 1000);
        }
    }
    round_trip(Kind::Sdhc, 2, 0xFFFF_FFF0);
}

#[test]
fn single_and_multiple_writes_leave_the_same_contents() {
    let blocks = [pattern(1), pattern(2), pattern(3)];
    let mut together = Card::new(Kind::Sdhc);
    let mut driver = SdCard::new();
    write_blocks(&mut driver, &mut together, &blocks, 50).unwrap();
    let mut apart = Card::new(Kind::Sdhc);
    let mut driver = SdCard::new();
    for (i, block) in blocks.iter().enumerate() {
        write_blocks(&mut driver, &mut apart, &[*block], 50 + i as u32).unwrap();
    }
    assert_eq!(together.blocks, apart.blocks);
    assert_eq!(together.blocks.len(), 3);
}

#[test]
fn writes_to_other_blocks_leave_a_range_alone() {
    let mut card = Card::new(Kind::Sd2);
    let mut driver = SdCard::new();
    let first = [pattern(1), pattern(2)];
    write_blocks(&mut driver, &mut card, &first, 10).unwrap();
    let before = read_blocks(&mut driver, &mut card, 2, 10).unwrap();
    write_blocks(&mut driver, &mut card, &[pattern(7), pattern(8), pattern(9)], 12).unwrap();
    write_blocks(&mut driver, &mut card, &[pattern(6)], 9).unwrap();
    let after = read_blocks(&mut driver, &mut card, 2, 10).unwrap();
    assert!(same(&before, &first));
    assert!(same(&after, &first));
}

#[test]
fn num_blocks_is_stable() {
    let mut card = Card::new(Kind::Sdhc);
    let mut driver = SdCard::new();
    let first = driver.num_blocks();
    let one = finish(&mut driver, &mut card, first);
    assert!(matches!(one, Ok(Output::Count(BlockCount(7_710_720)))));
    let first = driver.num_blocks();
    let two = finish(&mut driver, &mut card, first);
    assert!(matches!(two, Ok(Output::Count(BlockCount(7_710_720)))));
    write_blocks(&mut driver, &mut card, &[pattern(1)], 3).unwrap();
    read_blocks(&mut driver, &mut card, 2, 3).unwrap();
    let first = driver.num_blocks();
    let three = finish(&mut driver, &mut card, first);
    assert!(matches!(three, Ok(Output::Count(BlockCount(7_710_720)))));
    assert!(!card.selected);
}

#[test]
fn num_bytes_and_erase_flag() {
    let mut card = Card::new(Kind::Sdhc);
    let mut driver = SdCard::new();
    let first = driver.num_bytes();
    assert!(matches!(finish(&mut driver, &mut card, first), Ok(Output::Size(3_947_888_640))));
    let first = driver.erase_single_block_enabled();
    assert!(matches!(finish(&mut driver, &mut card, first), Ok(Output::Flag(true))));
    let mut card = Card::new(Kind::Sd1);
    let mut driver = SdCard::new();
    let first = driver.num_bytes();
    assert!(matches!(finish(&mut driver, &mut card, first), Ok(Output::Size(1_015_808_000))));
    let first = driver.num_blocks();
    assert!(matches!(
        finish(&mut driver, &mut card, first),
        Ok(Output::Count(BlockCount(1_984_000)))
    ));
    let first = driver.erase_single_block_enabled();
    assert!(matches!(finish(&mut driver, &mut card, first), Ok(Output::Flag(true))));
    assert!(!card.selected);
}

#[test]
fn an_operation_that_ends_well_leaves_the_card_known() {
    let mut card = Card::new(Kind::Sd2);
    let mut driver = SdCard::new();
    assert_eq!(driver.card_type(), None);
    read_blocks(&mut driver, &mut card, 1, 0).unwrap();
    assert_eq!(driver.card_type(), Some(CardType::SD2));
    assert_eq!(card.count(0), 1);
    read_blocks(&mut driver, &mut card, 1, 0).unwrap();
    assert_eq!(card.count(0), 1);
    driver.mark_card_uninit();
    assert_eq!(driver.card_type(), None);
    read_blocks(&mut driver, &mut card, 1, 0).unwrap();
    assert_eq!(card.count(0), 2);
    assert_eq!(driver.card_type(), Some(CardType::SD2));
}

#[test]
fn a_silent_card_is_not_found() {
    let mut card = Card::new(Kind::Sdhc);
    card.faults.silent = true;
    let mut driver = SdCard::new_with_options(AcquireOpts { use_crc: true, acquire_retries: 3 });
    let first = driver.num_blocks();
    let result = finish(&mut driver, &mut card, first);
    assert!(matches!(result, Err(Error::CardNotFound)));
    assert_eq!(card.count(0), 3);
    assert_eq!(card.commands.len(), 3);
    assert_eq!(card.actions.iter().filter(|a| *a == "write 6").count(), 3);
    assert_eq!(card.actions.iter().filter(|a| *a == "transfer ff").count(), 3 * (10_001 + 255) + 1);
    assert_eq!(card.delays, 3 * 10_000 + 3);
    assert_eq!(driver.card_type(), None);
    assert!(!card.selected);
}

#[test]
fn a_silent_card_is_not_found_by_default() {
    let mut card = Card::new(Kind::Sdhc);
    card.faults.silent = true;
    let mut driver = SdCard::new();
    let first = driver.read(1, BlockIdx(0));
    let result = finish(&mut driver, &mut card, first);
    assert!(matches!(result, Err(Error::CardNotFound)));
    assert_eq!(card.count(0), 50);
    assert!(!card.selected);
}

#[test]
fn one_attempt_is_one_reset_command() {
    let mut card = Card::new(Kind::Sdhc);
    card.faults.silent = true;
    let mut driver = SdCard::new_with_options(AcquireOpts { use_crc: true, acquire_retries: 1 });
    let first = driver.num_blocks();
    assert!(matches!(finish(&mut driver, &mut card, first), Err(Error::CardNotFound)));
    assert_eq!(card.count(0), 1);
    let mut card = Card::new(Kind::Sd2);
    let mut driver = SdCard::new_with_options(AcquireOpts { use_crc: true, acquire_retries: 1 });
    let first = driver.get_card_type();
    assert!(matches!(
        finish(&mut driver, &mut card, first),
        Ok(Output::Card(Some(CardType::SD2)))
    ));
    assert_eq!(card.count(0), 1);
}

#[test]
fn without_an_attempt_no_reset_command_is_sent() {
    for kind in [Kind::Sd1, Kind::Sdhc] {
        let mut card = Card::new(kind);
        let mut driver =
            SdCard::new_with_options(AcquireOpts { use_crc: true, acquire_retries: 0 });
        let first = driver.num_blocks();
        let result = finish(&mut driver, &mut card, first);
        assert!(matches!(result, Err(Error::CardNotFound)));
        assert!(card.commands.is_empty());
        assert_eq!(
            card.actions,
            vec!["cs high", "write 10", "cs low", "cs high", "transfer ff"]
        );
        assert_eq!(card.delays, 0);
        assert_eq!(driver.card_type(), None);
        assert!(!card.selected);
    }
}

#[test]
fn a_card_that_is_not_idle_is_reset_again() {
    let mut card = Card::new(Kind::Sdhc);
    card.faults.reset_r1 = Some(0x00);
    let mut driver = SdCard::new_with_options(quick());
    let first = driver.get_card_type();
    let result = finish(&mut driver, &mut card, first);
    assert!(matches!(result, Ok(Output::Card(None))));
    assert_eq!(card.count(0), 2);
    assert_eq!(card.delays, 2);
    assert!(!card.has("transfer fc"));
}

#[test]
fn an_operation_that_was_given_up_leaves_the_driver_usable() {
    let mut card = Card::new(Kind::Sdhc);
    card.blocks.insert(5, pattern(5).contents.to_vec());
    let mut driver = SdCard::new();
    read_blocks(&mut driver, &mut card, 1, 5).unwrap();
    let mut step = driver.read(1, BlockIdx(5));
    for _ in 0..4 {
        match step {
            Step::Need(action) => {
                let reply = card.perform(&action);
                step = driver.advance(reply);
            }
            Step::Done(_) => panic!("the read is not over yet"),
        }
    }
    assert!(driver.is_busy());
    assert!(card.selected);
    driver.abandon();
    assert!(!driver.is_busy());
    assert_eq!(driver.card_type(), Some(CardType::SDHC));
    assert_eq!(driver.options().acquire_retries, 50);
    driver.abandon();
    assert!(!driver.is_busy());
    driver.mark_card_uninit();
    let resets = card.count(0);
    let back = read_blocks(&mut driver, &mut card, 1, 5).unwrap();
    assert!(same(&back, &[pattern(5)]));
    assert_eq!(card.count(0), resets + 1);
    assert!(!card.selected);
}

#[test]
fn a_session_that_was_given_up_has_no_transfer_open() {
    let mut card = Card::new(Kind::Sdhc);
    let mut session = SdCardMultiBlockWriteRead::new(SdCard::new());
    let first = session.prepare_read(BlockIdx(0));
    assert!(finish_session(&mut session, &mut card, first).is_ok());
    assert_eq!(session.current_state(), State::Read);
    let step = session.read(512);
    assert!(matches!(step, Step::Need(_)));
    assert!(session.is_busy());
    session.abandon();
    assert!(!session.is_busy());
    assert_eq!(session.current_state(), State::Init);
    assert_eq!(session.sd_card().card_type(), Some(CardType::SDHC));
    assert!(matches!(session.read(512), Step::Done(Err(Error::BadState))));
    let mut driver = session.into_inner();
    driver.mark_card_uninit();
    let mut session = SdCardMultiBlockWriteRead::new(driver);
    let first = session.prepare_read(BlockIdx(0));
    assert!(finish_session(&mut session, &mut card, first).is_ok());
    assert_eq!(session.current_state(), State::Read);
}

#[test]
fn failures_of_acquisition() {
    let mut card = Card::new(Kind::Sdhc);
    card.faults.crc_mode_r1 = Some(0x00);
    let mut driver = SdCard::new_with_options(quick());
    let first = driver.num_blocks();
    assert!(matches!(finish(&mut driver, &mut card, first), Err(Error::CantEnableCRC)));
    assert!(!card.selected);

    let mut card = Card::new(Kind::Sdhc);
    card.faults.probe_echo = Some(0x55);
    let mut driver = SdCard::new_with_options(quick());
    let first = driver.num_blocks();
    assert!(matches!(finish(&mut driver, &mut card, first), Err(Error::TimeoutCommand(8))));
    assert_eq!(card.count(8), 10_001);
    assert!(!card.selected);

    let mut card = Card::new(Kind::Sdhc);
    card.faults.never_ready = true;
    let mut driver = SdCard::new_with_options(quick());
    let first = driver.num_blocks();
    assert!(matches!(finish(&mut driver, &mut card, first), Err(Error::TimeoutACommand(41))));
    assert_eq!(card.count(41), 10_001);
    assert!(!card.selected);

    let mut card = Card::new(Kind::Sdhc);
    card.faults.ocr_r1 = Some(0x04);
    let mut driver = SdCard::new_with_options(quick());
    let first = driver.num_blocks();
    assert!(matches!(finish(&mut driver, &mut card, first), Err(Error::Cmd58Error)));
    assert_eq!(driver.card_type(), None);
    assert!(!card.selected);
}

#[test]
fn the_kind_of_a_card_that_cannot_be_acquired_is_none() {
    let mut card = Card::new(Kind::Sdhc);
    card.faults.crc_mode_r1 = Some(0x00);
    let mut driver = SdCard::new_with_options(quick());
    let first = driver.get_card_type();
    assert!(matches!(finish(&mut driver, &mut card, first), Ok(Output::Card(None))));
    assert_eq!(driver.card_type(), None);
}

#[test]
fn failures_of_reading() {
    let mut card = Card::new(Kind::Sdhc);
    card.faults.csd_r1 = Some(0x04);
    let mut driver = SdCard::new();
    driver.mark_card_as_init(CardType::SDHC);
    let first = driver.num_blocks();
    assert!(matches!(finish(&mut driver, &mut card, first), Err(Error::RegisterReadError)));
    assert!(!card.selected);

    let mut card = Card::new(Kind::Sdhc);
    card.faults.read_token = Some(0xFC);
    let mut driver = SdCard::new();
    driver.mark_card_as_init(CardType::SDHC);
    assert!(matches!(read_blocks(&mut driver, &mut card, 1, 0), Err(Error::ReadError)));
    assert!(!card.selected);

    let mut card = Card::new(Kind::Sdhc);
    card.faults.no_read_token = true;
    let mut driver = SdCard::new();
    driver.mark_card_as_init(CardType::SDHC);
    assert!(matches!(read_blocks(&mut driver, &mut card, 1, 0), Err(Error::TimeoutReadBuffer)));
    assert_eq!(card.delays, 10_000);
    assert!(!card.selected);

    let mut card = Card::new(Kind::Sdhc);
    card.faults.mute_command = Some(17);
    let mut driver = SdCard::new();
    driver.mark_card_as_init(CardType::SDHC);
    assert!(matches!(read_blocks(&mut driver, &mut card, 1, 0), Err(Error::TimeoutCommand(17))));
    assert!(!card.selected);

    let mut card = Card::new(Kind::Sdhc);
    card.faults.stay_busy = true;
    let mut driver = SdCard::new();
    driver.mark_card_as_init(CardType::SDHC);
    assert!(matches!(read_blocks(&mut driver, &mut card, 1, 0), Err(Error::TimeoutWaitNotBusy)));
    assert_eq!(card.delays, 10_000);
    assert!(card.commands.is_empty());
    assert!(!card.selected);
}

#[test]
fn a_flipped_bit_is_a_crc_error() {
    for at in [0usize, 17, 511] {
        let mut card = Card::new(Kind::Sdhc);
        card.blocks.insert(4, pattern(3).contents.to_vec());
        card.faults.flip_payload_byte = Some(at);
        let mut driver = SdCard::new();
        driver.mark_card_as_init(CardType::SDHC);
        match read_blocks(&mut driver, &mut card, 1, 4) {
            Err(Error::CrcError(received, computed)) => {
                assert_ne!(received, computed);
                assert_eq!(received, crc16(&pattern(3).contents));
                let mut flipped = pattern(3).contents;
                flipped[at] ^= 1;
                assert_eq!(computed, crc16(&flipped));
            }
            other => panic!("a flipped bit must be caught, got {:?}", other.map(|b| b.len())),
        }
        assert!(!card.selected);
        card.faults.flip_payload_byte = None;
        let blocks = read_blocks(&mut driver, &mut card, 1, 4).unwrap();
        assert!(same(&blocks, &[pattern(3)]));
    }
}

#[test]
fn a_flipped_bit_goes_unnoticed_without_crc() {
    let mut card = Card::new(Kind::Sdhc);
    card.blocks.insert(4, pattern(3).contents.to_vec());
    card.faults.flip_payload_byte = Some(2);
    let mut driver = SdCard::new_with_options(AcquireOpts { use_crc: false, acquire_retries: 2 });
    driver.mark_card_as_init(CardType::SDHC);
    let blocks = read_blocks(&mut driver, &mut card, 1, 4).unwrap();
    let mut flipped = pattern(3);
    flipped.contents[2] ^= 1;
    assert!(same(&blocks, &[flipped]));
}

#[test]
fn a_packet_that_fails_ends_a_multiple_read_without_the_stop_command() {
    let mut card = Card::new(Kind::Sdhc);
    card.faults.flip_payload_byte = Some(0);
    let mut driver = SdCard::new();
    driver.mark_card_as_init(CardType::SDHC);
    assert!(matches!(read_blocks(&mut driver, &mut card, 3, 0), Err(Error::CrcError(_, _))));
    assert_eq!(card.commands, vec![(18, 0)]);
    assert!(!card.selected);
}

#[test]
fn a_rejected_block_is_a_write_error() {
    let mut card = Card::new(Kind::Sdhc);
    card.crc_on = true;
    card.faults.data_response = Some(0x0B);
    let mut driver = SdCard::new();
    driver.mark_card_as_init(CardType::SDHC);
    let blocks = [pattern(1), pattern(2)];
    let result = write_blocks(&mut driver, &mut card, &blocks, 200);
    assert!(matches!(result, Err(Error::WriteError)));
    assert_eq!(card.actions.last().unwrap(), "cs high");
    assert!(!card.selected);
    assert!(!driver.is_busy());
    card.mode = Mode::Command;
    card.blocks.insert(7, pattern(7).contents.to_vec());
    let back = read_blocks(&mut driver, &mut card, 1, 7).unwrap();
    assert!(same(&back, &[pattern(7)]));
    write_blocks(&mut driver, &mut card, &blocks, 200).unwrap();
    assert!(same(&read_blocks(&mut driver, &mut card, 2, 200).unwrap(), &blocks));
}

#[test]
fn a_write_without_crc_sends_idle_bytes_for_the_checksum() {
    let mut card = Card::new(Kind::Sdhc);
    let mut driver = SdCard::new_with_options(AcquireOpts { use_crc: false, acquire_retries: 2 });
    driver.mark_card_as_init(CardType::SDHC);
    let first = driver.write(vec![pattern(1)], BlockIdx(0));
    let mut step = first;
    let mut trailer = None;
    let mut writes = 0;
    loop {
        match step {
            Step::Need(action) => {
                if let Action::Write(bytes) = &action {
                    writes += 1;
                    if bytes.len() == 2 {
                        trailer = Some(bytes.clone());
                    }
                }
                let reply = card.perform(&action);
                step = driver.advance(reply);
            }
            Step::Done(result) => {
                assert!(result.is_ok());
                break;
            }
        }
    }
    assert_eq!(trailer, Some(vec![0xFF, 0xFF]));
    assert_eq!(writes, 4);
}

#[test]
fn a_write_with_crc_sends_the_checksum_big_endian() {
    let mut card = Card::new(Kind::Sdhc);
    let mut driver = SdCard::new();
    driver.mark_card_as_init(CardType::SDHC);
    let block = pattern(77);
    let mut step = driver.write(vec![block], BlockIdx(0));
    let mut trailer = None;
    loop {
        match step {
            Step::Need(action) => {
                if let Action::Write(bytes) = &action {
                    if bytes.len() == 2 {
                        trailer = Some(bytes.clone());
                    }
                }
                let reply = card.perform(&action);
                step = driver.advance(reply);
            }
            Step::Done(result) => {
                assert!(result.is_ok());
                break;
            }
        }
    }
    let crc = crc16(&block.contents);
    assert_eq!(trailer, Some(vec![(crc >> 8) as u8, (crc & 0xFF) as u8]));
}

#[test]
fn a_broken_bus_is_a_transport_error() {
    let mut card = Card::new(Kind::Sdhc);
    card.faults.spi_broken = true;
    let mut driver = SdCard::new();
    driver.mark_card_as_init(CardType::SDHC);
    assert!(matches!(read_blocks(&mut driver, &mut card, 1, 0), Err(Error::Transport)));
    assert_eq!(card.actions.last().unwrap(), "cs high");
    assert!(!card.selected);
    assert_eq!(driver.card_type(), Some(CardType::SDHC));
    let mut driver = SdCard::new();
    let first = driver.num_blocks();
    assert!(matches!(finish(&mut driver, &mut card, first), Err(Error::Transport)));
}

#[test]
fn a_broken_pin_is_a_gpio_error() {
    let mut card = Card::new(Kind::Sdhc);
    card.faults.pin_broken = true;
    let mut driver = SdCard::new();
    driver.mark_card_as_init(CardType::SDHC);
    assert!(matches!(read_blocks(&mut driver, &mut card, 1, 0), Err(Error::GpioError)));
    assert_eq!(card.actions, vec!["cs low"]);
    let mut driver = SdCard::new();
    let first = driver.num_blocks();
    assert!(matches!(finish(&mut driver, &mut card, first), Err(Error::GpioError)));
}

#[test]
fn a_wrong_kind_of_reply_is_an_error() {
    let mut driver = SdCard::new();
    driver.mark_card_as_init(CardType::SDHC);
    let step = driver.read(1, BlockIdx(0));
    assert!(matches!(step, Step::Need(Action::CsLow)));
    let step = driver.advance(Reply::Byte(0));
    assert!(matches!(step, Step::Done(Err(Error::GpioError))));
    assert!(!driver.is_busy());

    let step = driver.read(1, BlockIdx(0));
    assert!(matches!(step, Step::Need(Action::CsLow)));
    let step = driver.advance(Reply::Done);
    assert!(matches!(step, Step::Need(Action::Transfer(0xFF))));
    let step = driver.advance(Reply::Done);
    assert!(matches!(step, Step::Need(Action::CsHigh)));
    let step = driver.advance(Reply::Done);
    assert!(matches!(step, Step::Done(Err(Error::Transport))));
}

#[test]
fn a_short_read_is_a_transport_error() {
    let mut driver = SdCard::new();
    driver.mark_card_as_init(CardType::SDHC);
    let mut step = driver.read(1, BlockIdx(0));
    let mut card = Card::new(Kind::Sdhc);
    let mut result = None;
    while result.is_none() {
        match step {
            Step::Need(action) => {
                let mut reply = card.perform(&action);
                if let Action::Read(512) = action {
                    reply = Reply::Bytes(vec![0u8; 511]);
                }
                step = driver.advance(reply);
            }
            Step::Done(r) => {
                result = Some(r);
                step = Step::Done(Err(Error::BadState));
            }
        }
    }
    assert!(matches!(result, Some(Err(Error::Transport))));
    assert!(!card.selected);
}

#[test]
fn a_session_writes_three_blocks() {
    let mut card = Card::new(Kind::Sdhc);
    let mut session = SdCardMultiBlockWriteRead::new(SdCard::new());
    assert_eq!(session.current_state(), State::Init);
    let first = session.prepare_write(BlockIdx(0), 3);
    assert!(finish_session(&mut session, &mut card, first).is_ok());
    assert_eq!(session.current_state(), State::Write);
    assert!(card.selected);
    assert!(card.commands.ends_with(&[(55, 0), (23, 3), (25, 0)]));
    for seed in [10u8, 11, 12] {
        let first = session.write(pattern(seed).contents.to_vec());
        assert!(matches!(finish_session(&mut session, &mut card, first), Ok(Output::Unit)));
        assert_eq!(session.current_state(), State::Write);
        assert!(card.selected);
    }
    let first = session.stop_write();
    assert!(finish_session(&mut session, &mut card, first).is_ok());
    assert_eq!(session.current_state(), State::Init);
    assert!(!card.selected);
    assert!(card.has("transfer fd"));
    let mut driver = session.into_inner();
    assert_eq!(driver.card_type(), Some(CardType::SDHC));
    let back = read_blocks(&mut driver, &mut card, 3, 0).unwrap();
    assert!(same(&back, &[pattern(10), pattern(11), pattern(12)]));
}

#[test]
fn a_session_reads_block_by_block() {
    let mut card = Card::new(Kind::Sd2);
    for i in 0..3u32 {
        card.blocks.insert(20 + i, pattern(i as u8).contents.to_vec());
    }
    let mut session = SdCardMultiBlockWriteRead::new(SdCard::new());
    let first = session.prepare_read(BlockIdx(20));
    assert!(finish_session(&mut session, &mut card, first).is_ok());
    assert_eq!(session.current_state(), State::Read);
    assert!(card.selected);
    assert_eq!(card.commands.last(), Some(&(18, 20 * 512)));
    for i in 0..3u8 {
        let first = session.read(512);
        match finish_session(&mut session, &mut card, first) {
            Ok(Output::Payload(bytes)) => assert_eq!(bytes, pattern(i).contents.to_vec()),
            other => panic!("a packet must come back, got {:?}", other.is_ok()),
        }
    }
    let first = session.stop_read();
    assert!(finish_session(&mut session, &mut card, first).is_ok());
    assert_eq!(session.current_state(), State::Init);
    assert_eq!(card.commands.last(), Some(&(12, 0)));
    assert!(!card.selected);
}

#[test]
fn a_session_refuses_what_its_state_forbids() {
    let mut card = Card::new(Kind::Sdhc);
    let mut session = SdCardMultiBlockWriteRead::new(SdCard::new());
    assert!(matches!(session.read(512), Step::Done(Err(Error::BadState))));
    assert!(matches!(session.write(vec![0u8; 512]), Step::Done(Err(Error::BadState))));
    assert!(matches!(session.stop_read(), Step::Done(Err(Error::BadState))));
    assert!(matches!(session.stop_write(), Step::Done(Err(Error::BadState))));
    assert!(card.actions.is_empty());
    assert_eq!(session.current_state(), State::Init);

    let first = session.prepare_read(BlockIdx(0));
    assert!(finish_session(&mut session, &mut card, first).is_ok());
    let seen = card.actions.len();
    assert!(matches!(session.prepare_read(BlockIdx(0)), Step::Done(Err(Error::BadState))));
    assert!(matches!(session.prepare_write(BlockIdx(0), 1), Step::Done(Err(Error::BadState))));
    assert!(matches!(session.write(vec![0u8; 512]), Step::Done(Err(Error::BadState))));
    assert!(matches!(session.stop_write(), Step::Done(Err(Error::BadState))));
    assert_eq!(session.current_state(), State::Read);
    assert_eq!(card.actions.len(), seen);
    let first = session.stop_read();
    assert!(finish_session(&mut session, &mut card, first).is_ok());
    assert!(matches!(session.stop_read(), Step::Done(Err(Error::BadState))));

    let first = session.prepare_write(BlockIdx(0), 1);
    assert!(finish_session(&mut session, &mut card, first).is_ok());
    assert!(matches!(session.prepare_write(BlockIdx(0), 1), Step::Done(Err(Error::BadState))));
    assert!(matches!(session.read(512), Step::Done(Err(Error::BadState))));
    assert!(matches!(session.stop_read(), Step::Done(Err(Error::BadState))));
    assert_eq!(session.current_state(), State::Write);
    let first = session.stop_write();
    assert!(finish_session(&mut session, &mut card, first).is_ok());
    assert_eq!(session.current_state(), State::Init);
}

#[test]
fn a_packet_that_fails_closes_the_session() {
    let mut card = Card::new(Kind::Sdhc);
    let mut session = SdCardMultiBlockWriteRead::new(SdCard::new());
    let first = session.prepare_read(BlockIdx(0));
    assert!(finish_session(&mut session, &mut card, first).is_ok());
    card.faults.flip_payload_byte = Some(5);
    let first = session.read(512);
    let result = finish_session(&mut session, &mut card, first);
    assert!(matches!(result, Err(Error::CrcError(_, _))));
    assert_eq!(session.current_state(), State::Init);
    assert_eq!(card.commands.last(), Some(&(12, 0)));
    assert!(!card.selected);
    assert!(matches!(session.read(512), Step::Done(Err(Error::BadState))));
    card.faults.flip_payload_byte = None;
    let first = session.prepare_read(BlockIdx(0));
    assert!(finish_session(&mut session, &mut card, first).is_ok());
    assert_eq!(session.current_state(), State::Read);
}

#[test]
fn a_block_that_fails_closes_the_session() {
    let mut card = Card::new(Kind::Sdhc);
    let mut session = SdCardMultiBlockWriteRead::new(SdCard::new());
    let first = session.prepare_write(BlockIdx(8), 2);
    assert!(finish_session(&mut session, &mut card, first).is_ok());
    card.faults.data_response = Some(0x0D);
    let first = session.write(pattern(1).contents.to_vec());
    let result = finish_session(&mut session, &mut card, first);
    assert!(matches!(result, Err(Error::WriteError)));
    assert_eq!(session.current_state(), State::Init);
    assert!(card.has("transfer fd"));
    assert!(!card.selected);
    assert!(card.blocks.is_empty());
}

#[test]
fn an_opening_that_fails_leaves_the_session_closed_and_the_card_deselected() {
    let mut card = Card::new(Kind::Sdhc);
    card.faults.mute_command = Some(18);
    let mut session = SdCardMultiBlockWriteRead::new(SdCard::new());
    let first = session.prepare_read(BlockIdx(0));
    let result = finish_session(&mut session, &mut card, first);
    assert!(matches!(result, Err(Error::TimeoutCommand(18))));
    assert_eq!(session.current_state(), State::Init);
    assert!(!card.selected);
}

#[test]
fn a_session_reads_packets_of_any_length() {
    let mut card = Card::new(Kind::Sdhc);
    card.blocks.insert(0, pattern(3).contents.to_vec());
    let mut driver = SdCard::new_with_options(AcquireOpts { use_crc: false, acquire_retries: 2 });
    driver.mark_card_as_init(CardType::SDHC);
    let mut session = SdCardMultiBlockWriteRead::new(driver);
    let first = session.prepare_read(BlockIdx(0));
    assert!(finish_session(&mut session, &mut card, first).is_ok());
    let first = session.read(100);
    match finish_session(&mut session, &mut card, first) {
        Ok(Output::Payload(bytes)) => assert_eq!(bytes, pattern(3).contents[..100].to_vec()),
        other => panic!("a packet must come back, got {:?}", other.is_ok()),
    }
    assert!(card.has("read 100"));
    assert_eq!(session.sd_card().card_type(), Some(CardType::SDHC));
}
