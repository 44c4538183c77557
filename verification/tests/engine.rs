//! The engine without the lazy acquisition of the block device.

use sdmmc_spi::bus::{Action, Reply};
use sdmmc_spi::inner::SdCardInner;
use sdmmc_spi::outcome::{Output, Step};
use sdmmc_spi::proto::crc16;
use sdmmc_spi::types::{AcquireOpts, Block, BlockIdx, CardType, Error};

fn engine(card: Option<CardType>) -> SdCardInner {
    let mut inner = SdCardInner::new(AcquireOpts { use_crc: true, acquire_retries: 1 });
    inner.set_card_type(card);
    inner
}

fn feed(inner: &mut SdCardInner, first: Step, replies: Vec<Reply>) -> (Vec<String>, Step) {
    let mut seen = Vec::new();
    let mut step = first;
    for reply in replies {
        match step {
            Step::Need(action) => {
                seen.push(format!("{:?}", action));
                step = inner.advance(reply);
            }
            Step::Done(_) => panic!("the operation ended before the replies did"),
        }
    }
    (seen, step)
}

#[test]
fn without_a_card_nothing_is_read_or_written() {
    let mut inner = engine(None);
    assert!(matches!(inner.read(1, BlockIdx(0)), Step::Done(Err(Error::CardNotFound))));
    assert!(matches!(
        inner.write(vec![Block::new()], BlockIdx(0)),
        Step::Done(Err(Error::CardNotFound))
    ));
    assert!(matches!(inner.prepare_read(BlockIdx(0)), Step::Done(Err(Error::CardNotFound))));
    assert!(matches!(inner.prepare_write(BlockIdx(0), 1), Step::Done(Err(Error::CardNotFound))));
    assert!(!inner.is_busy());
    assert_eq!(inner.card_type(), None);
}

#[test]
fn without_a_card_the_register_is_asked_for_with_the_card_selected() {
    for which in 0..3 {
        let mut inner = engine(None);
        let first = match which {
            0 => inner.num_blocks(),
            1 => inner.num_bytes(),
            _ => inner.erase_single_block_enabled(),
        };
        let (seen, last) = feed(&mut inner, first, vec![Reply::Done, Reply::Done]);
        assert_eq!(seen, vec!["CsLow", "CsHigh"]);
        assert!(matches!(last, Step::Done(Err(Error::CardNotFound))));
        assert!(!inner.is_busy());
    }
}

#[test]
fn an_engine_that_gives_up_is_idle() {
    let mut inner = engine(Some(CardType::SD1));
    assert!(matches!(inner.num_blocks(), Step::Need(Action::CsLow)));
    assert!(inner.is_busy());
    inner.abandon();
    assert!(!inner.is_busy());
    assert_eq!(inner.card_type(), Some(CardType::SD1));
    assert!(matches!(inner.acquire(), Step::Need(Action::CsHigh)));
    inner.abandon();
    assert!(!inner.is_busy());
    assert_eq!(inner.card_type(), Some(CardType::SD1));
}

#[test]
fn a_known_card_is_not_acquired_again() {
    let mut inner = engine(Some(CardType::SD2));
    assert!(matches!(
        inner.check_init(),
        Step::Done(Ok(Output::Card(Some(CardType::SD2))))
    ));
    assert!(!inner.is_busy());
    let mut inner = engine(None);
    assert!(matches!(inner.check_init(), Step::Need(Action::CsHigh)));
    assert!(inner.is_busy());
}

#[test]
fn an_acquisition_that_fails_leaves_what_was_known() {
    let mut inner = engine(Some(CardType::SD1));
    let first = inner.acquire();
    let (seen, last) = feed(
        &mut inner,
        first,
        vec![Reply::Done, Reply::Failed, Reply::Done, Reply::Byte(0xFF)],
    );
    assert_eq!(seen[0], "CsHigh");
    assert!(seen[1].starts_with("Write([255, 255, 255, 255, 255, 255, 255, 255, 255, 255])"));
    assert_eq!(&seen[2..], ["CsHigh", "Transfer(255)"]);
    assert!(matches!(last, Step::Done(Err(Error::Transport))));
    assert_eq!(inner.card_type(), Some(CardType::SD1));
    assert_eq!(inner.options().acquire_retries, 1);
}

#[test]
fn an_acquisition_ignores_the_answer_to_the_last_idle_byte() {
    let mut inner = engine(None);
    let first = inner.acquire();
    let (_, last) = feed(
        &mut inner,
        first,
        vec![Reply::Done, Reply::Failed, Reply::Done, Reply::Failed],
    );
    assert!(matches!(last, Step::Done(Err(Error::Transport))));
    let first = inner.acquire();
    let (seen, last) = feed(&mut inner, first, vec![Reply::Done, Reply::Failed, Reply::Failed]);
    assert_eq!(seen.len(), 3);
    assert!(matches!(last, Step::Done(Err(Error::GpioError))));
}

#[test]
fn a_session_packet_is_read_without_touching_chip_select() {
    let mut inner = engine(Some(CardType::SDHC));
    let payload = vec![1u8, 2, 3];
    let crc = crc16(&payload);
    let first = inner.read_data(3);
    let (seen, last) = feed(
        &mut inner,
        first,
        vec![
            Reply::Byte(0xFF),
            Reply::Done,
            Reply::Byte(0xFE),
            Reply::Bytes(payload.clone()),
            Reply::Bytes(vec![(crc >> 8) as u8, crc as u8]),
        ],
    );
    assert_eq!(seen, vec!["Transfer(255)", "DelayUs(10)", "Transfer(255)", "Read(3)", "Read(2)"]);
    match last {
        Step::Done(Ok(Output::Payload(bytes))) => assert_eq!(bytes, payload),
        _ => panic!("the packet must come back"),
    }
}

#[test]
fn a_session_block_is_written_without_touching_chip_select() {
    let mut inner = engine(Some(CardType::SDHC));
    let first = inner.write_inner_block(vec![7u8; 4]);
    let (seen, last) = feed(
        &mut inner,
        first,
        vec![Reply::Byte(0xFF), Reply::Byte(0xFF), Reply::Done, Reply::Done, Reply::Byte(0x05)],
    );
    assert_eq!(seen[0], "Transfer(255)");
    assert_eq!(seen[1], "Transfer(252)");
    assert_eq!(seen[2], "Write([7, 7, 7, 7])");
    assert_eq!(seen[4], "Transfer(255)");
    assert!(matches!(last, Step::Done(Ok(Output::Unit))));
}

#[test]
fn closing_a_transfer_deselects_the_card() {
    let mut inner = engine(Some(CardType::SDHC));
    let first = inner.end_write();
    let (seen, last) =
        feed(&mut inner, first, vec![Reply::Byte(0xFF), Reply::Byte(0xFF), Reply::Done]);
    assert_eq!(seen, vec!["Transfer(255)", "Transfer(253)", "CsHigh"]);
    assert!(matches!(last, Step::Done(Ok(Output::Unit))));
    let first = inner.end_read();
    let (seen, last) = feed(
        &mut inner,
        first,
        vec![Reply::Done, Reply::Byte(0xFF), Reply::Byte(0x00), Reply::Done],
    );
    assert!(seen[0].starts_with("Write([76, 0, 0, 0, 0,"));
    assert_eq!(&seen[1..], ["Transfer(255)", "Transfer(255)", "CsHigh"]);
    assert!(matches!(last, Step::Done(Ok(Output::Unit))));
    let first = inner.end_read();
    let (seen, last) = feed(&mut inner, first, vec![Reply::Failed, Reply::Done]);
    assert_eq!(seen.len(), 2);
    assert_eq!(seen[1], "CsHigh");
    assert!(matches!(last, Step::Done(Err(Error::Transport))));
}

#[test]
fn an_opening_that_succeeds_keeps_the_card_selected() {
    let mut inner = engine(Some(CardType::SD2));
    let first = inner.prepare_read(BlockIdx(3));
    let (seen, last) = feed(
        &mut inner,
        first,
        vec![Reply::Done, Reply::Byte(0xFF), Reply::Done, Reply::Byte(0x00)],
    );
    assert_eq!(seen[0], "CsLow");
    assert!(seen[2].starts_with("Write([82, 0, 0, 6, 0,"));
    assert_eq!(seen.len(), 4);
    assert!(matches!(last, Step::Done(Ok(Output::Unit))));
    let first = inner.prepare_read(BlockIdx(3));
    let (seen, last) = feed(
        &mut inner,
        first,
        vec![Reply::Done, Reply::Byte(0xFF), Reply::Failed, Reply::Done],
    );
    assert_eq!(seen[3], "CsHigh");
    assert!(matches!(last, Step::Done(Err(Error::Transport))));
}
