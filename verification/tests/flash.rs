use flash_writer::busy::check_bsy_sram;
use flash_writer::erase::erase_sram;
use flash_writer::flash::{check_range, FlashWriter, FlashWriterError};
use flash_writer::layout::{Bank, BankLayout, FlashConfig};
use flash_writer::mock::MockFlash;
use flash_writer::model::{KEY_1, KEY_2};
use flash_writer::program::{assemble, write_sram};
use flash_writer::registers::{Access, FlashController, FlashRegisters, Recorded};
use flash_writer::status::{check_errors, check_errors_ram, StatusBits};

const BASE: u32 = 0x0800_0000;

fn f0_config() -> FlashConfig {
    FlashConfig::stm32f0(16, 220).unwrap()
}

fn f0_mock() -> MockFlash {
    MockFlash::new(BASE, 16 * 1024, 1024, 2)
}

fn f0_writer(start: u32, end: u32) -> FlashWriter<MockFlash> {
    FlashWriter::new(start..=end, f0_mock(), f0_config()).unwrap()
}

fn programs(log: &Vec<Access>) -> Vec<(u32, u64)> {
    let mut out = Vec::new();
    for access in log {
        if let Access::Program { address, chunk } = access {
            out.push((*address, *chunk));
        }
    }
    out
}

fn busy_reads(log: &Vec<Access>) -> usize {
    let mut count = 0;
    for access in log {
        if let Access::BusyRead { .. } = access {
            count += 1;
        }
    }
    count
}

fn all_bits() -> StatusBits {
    StatusBits {
        program_error: 1 << 3,
        size_error: 1 << 6,
        alignment_error: 1 << 5,
        page_sequence_error: 1 << 7,
        write_protect_error: 1 << 4,
        miss_error: 1 << 8,
        fast_program_error: 1 << 9,
    }
}

#[test]
fn new_accepts_regions_inside_the_flash() {
    assert!(FlashWriter::new(BASE..=BASE + 16 * 1024 - 1, f0_mock(), f0_config()).is_ok());
    assert!(FlashWriter::new(BASE + 0x1400..=BASE + 0x1BFF, f0_mock(), f0_config()).is_ok());
    assert!(FlashWriter::new(BASE..=BASE, f0_mock(), f0_config()).is_ok());
}

#[test]
fn new_rejects_regions_outside_the_flash() {
    let below = FlashWriter::new(BASE - 1..=BASE + 10, f0_mock(), f0_config());
    assert!(matches!(below, Err(FlashWriterError::InvalidRange)));
    let above = FlashWriter::new(BASE..=BASE + 16 * 1024, f0_mock(), f0_config());
    assert!(matches!(above, Err(FlashWriterError::InvalidRange)));
    let outside = FlashWriter::new(0x2000_0000..=0x2000_0100, f0_mock(), f0_config());
    assert!(matches!(outside, Err(FlashWriterError::InvalidRange)));
}

#[test]
fn new_rejects_misordered_and_exhausted_ranges() {
    let misordered = FlashWriter::new(BASE + 8..=BASE + 4, f0_mock(), f0_config());
    assert!(matches!(misordered, Err(FlashWriterError::InvalidRange)));
    let mut range = BASE..=BASE + 1;
    while range.next().is_some() {}
    let exhausted = FlashWriter::new(range, f0_mock(), f0_config());
    assert!(matches!(exhausted, Err(FlashWriterError::InvalidRange)));
}

#[test]
fn new_prepares_the_controller_and_the_cursor() {
    let mut writer = f0_writer(BASE + 0x1400, BASE + 0x1BFF);
    assert_eq!(writer.get_start_address(), BASE + 0x1400);
    assert_eq!(writer.get_end_address(), BASE + 0x1BFF);
    assert_eq!(writer.get_next_write_address(), BASE + 0x1400);
    assert_eq!(writer.get_image_len(), 0);
    assert_eq!(writer.get_pending_len(), 0);
    let mock = writer.release_regs();
    assert_eq!(
        mock.log(),
        &vec![Access::CompletionInterruptEnable, Access::StatusClear]
    );
}

#[test]
fn check_range_takes_both_bounds() {
    assert!(check_range(&(10..=20), &(10..=20)));
    assert!(check_range(&(10..=20), &(12..=15)));
    assert!(!check_range(&(10..=20), &(9..=15)));
    assert!(!check_range(&(10..=20), &(12..=21)));
}

#[test]
fn write_then_flush_commits_padded_chunks() {
    let mut writer = f0_writer(BASE + 0x1400, BASE + 0x1C00);
    assert_eq!(writer.write(&[1, 2, 3, 4, 5, 6, 7]), Ok(()));
    assert_eq!(writer.get_pending_len(), 1);
    assert_eq!(writer.get_next_write_address(), BASE + 0x1406);
    assert_eq!(writer.flush(), Ok(()));
    assert_eq!(writer.get_pending_len(), 0);
    assert_eq!(writer.get_next_write_address(), BASE + 0x1408);
    assert_eq!(writer.get_image_len(), 7);
    let mock = writer.release_regs();
    assert_eq!(
        programs(mock.log()),
        vec![
            (BASE + 0x1400, 0x0201),
            (BASE + 0x1402, 0x0403),
            (BASE + 0x1404, 0x0605),
            (BASE + 0x1406, 0xFF07),
        ]
    );
    assert_eq!(&mock.memory()[0x1400..0x1408], &[1, 2, 3, 4, 5, 6, 7, 0xFF]);
    assert!(mock.locked());
}

#[test]
fn write_is_split_invariant() {
    let data: Vec<u8> = (0u8..23).collect();
    let mut whole = f0_writer(BASE + 0x400, BASE + 0x7FF);
    assert_eq!(whole.write(&data), Ok(()));
    assert_eq!(whole.flush(), Ok(()));
    let whole_cursor = whole.get_next_write_address();
    let whole = whole.release_regs();
    for split in 0..=data.len() {
        let mut parts = f0_writer(BASE + 0x400, BASE + 0x7FF);
        assert_eq!(parts.write(&data[..split]), Ok(()));
        assert_eq!(parts.write(&data[split..]), Ok(()));
        assert_eq!(parts.flush(), Ok(()));
        assert_eq!(parts.get_next_write_address(), whole_cursor);
        assert_eq!(parts.get_image_len(), data.len());
        let parts = parts.release_regs();
        assert_eq!(programs(parts.log()), programs(whole.log()));
        assert_eq!(parts.memory(), whole.memory());
    }
}

#[test]
fn write_keeps_short_data_pending() {
    let mut config_banks = Vec::new();
    config_banks.push(Bank {
        start_address: 0x1000,
        end_address: 0x1FFF,
        bank_index: 0,
        start_page_number: 0,
    });
    let layout = BankLayout::new(config_banks).unwrap();
    let config = FlashConfig::new(8, 256, 10, all_bits(), layout).unwrap();
    let mock = MockFlash::new(0x1000, 0x1000, 256, 8);
    let mut writer = FlashWriter::new(0x1000..=0x1FFF, mock, config).unwrap();
    assert_eq!(writer.write(&[1, 2, 3]), Ok(()));
    assert_eq!(writer.write(&[4, 5]), Ok(()));
    assert_eq!(writer.get_pending_len(), 5);
    assert_eq!(writer.get_next_write_address(), 0x1000);
    assert_eq!(writer.write(&[6, 7, 8, 9]), Ok(()));
    assert_eq!(writer.get_pending_len(), 1);
    assert_eq!(writer.get_next_write_address(), 0x1008);
    assert_eq!(writer.flush(), Ok(()));
    let mock = writer.release_regs();
    assert_eq!(
        programs(mock.log()),
        vec![
            (0x1000, 0x0807_0605_0403_0201),
            (0x1008, 0xFFFF_FFFF_FFFF_FF09),
        ]
    );
}

#[test]
fn write_leaves_the_controller_unlocked() {
    let mut writer = f0_writer(BASE, BASE + 0x3FF);
    assert_eq!(writer.write(&[1, 2]), Ok(()));
    assert!(!writer.get_regs().locked());
    assert_eq!(writer.flush(), Ok(()));
    assert!(writer.get_regs().locked());
}

#[test]
fn flush_twice_changes_nothing_more() {
    let mut writer = f0_writer(BASE, BASE + 0x3FF);
    assert_eq!(writer.write(&[9, 8, 7]), Ok(()));
    assert_eq!(writer.flush(), Ok(()));
    let cursor = writer.get_next_write_address();
    let memory = writer.get_regs().memory().clone();
    let before = writer.get_regs().log().len();
    assert_eq!(writer.flush(), Ok(()));
    assert_eq!(writer.get_next_write_address(), cursor);
    assert_eq!(writer.get_regs().memory(), &memory);
    assert_eq!(&writer.get_regs().log()[before..], &[Access::Lock]);
}

#[test]
fn erase_sets_every_byte_of_the_region_to_the_idle_value() {
    let mut writer = f0_writer(BASE + 0x1400, BASE + 0x1BFF);
    assert_eq!(writer.erase(), Ok(()));
    let bytes = writer.read(BASE + 0x1400, 0x800);
    assert!(bytes.iter().all(|byte| *byte == 0xFF));
    let mock = writer.release_regs();
    assert!(mock.memory()[..0x1400].iter().all(|byte| *byte == 0));
    assert!(mock.memory()[0x1C00..].iter().all(|byte| *byte == 0));
    assert!(mock.locked());
}

#[test]
fn erase_issues_each_page_in_order() {
    let mut writer = f0_writer(BASE + 0x400, BASE + 0x800);
    assert_eq!(writer.erase(), Ok(()));
    let mock = writer.release_regs();
    assert_eq!(
        &mock.log()[2..],
        &[
            Access::BusyRead { busy: false },
            Access::StatusRead { bits: 0 },
            Access::LockRead { locked: true },
            Access::KeyWrite { key: KEY_1 },
            Access::KeyWrite { key: KEY_2 },
            Access::LockRead { locked: false },
            Access::PageErase { enable: true },
            Access::BankSelect { bank: 0 },
            Access::PageSelect { page: 1, address: BASE + 0x400 },
            Access::EraseStart,
            Access::BusyRead { busy: false },
            Access::StatusRead { bits: 0 },
            Access::PageErase { enable: false },
            Access::PageErase { enable: true },
            Access::BankSelect { bank: 0 },
            Access::PageSelect { page: 2, address: BASE + 0x800 },
            Access::EraseStart,
            Access::BusyRead { busy: false },
            Access::StatusRead { bits: 0 },
            Access::PageErase { enable: false },
            Access::Lock,
        ][..]
    );
}

#[test]
fn erase_selects_the_bank_of_each_page() {
    let mut banks = Vec::new();
    banks.push(Bank { start_address: 0x1000, end_address: 0x17FF, bank_index: 0, start_page_number: 0 });
    banks.push(Bank { start_address: 0x1800, end_address: 0x1FFF, bank_index: 1, start_page_number: 0 });
    let layout = BankLayout::new(banks).unwrap();
    let config = FlashConfig::new(4, 0x400, 5, all_bits(), layout).unwrap();
    let mut mock = MockFlash::new(0x1000, 0x1000, 0x400, 4);
    assert_eq!(erase_sram(&mut mock, &config, 0x1400, 0x1FFF), Ok(()));
    let selects: Vec<Access> = mock
        .log()
        .iter()
        .filter(|access| matches!(access, Access::BankSelect { .. } | Access::PageSelect { .. }))
        .copied()
        .collect();
    assert_eq!(
        selects,
        vec![
            Access::BankSelect { bank: 0 },
            Access::PageSelect { page: 1, address: 0x1400 },
            Access::BankSelect { bank: 1 },
            Access::PageSelect { page: 0, address: 0x1800 },
            Access::BankSelect { bank: 1 },
            Access::PageSelect { page: 1, address: 0x1C00 },
        ]
    );
}

#[test]
fn erase_stops_at_an_address_in_no_bank() {
    let config = f0_config();
    let mut mock = f0_mock();
    let end = BASE + 16 * 1024 + 0x400;
    let result = erase_sram(&mut mock, &config, BASE + 15 * 1024, end);
    assert_eq!(result, Err(FlashWriterError::WrongBankId));
    let starts = mock.log().iter().filter(|access| matches!(access, Access::EraseStart)).count();
    assert_eq!(starts, 1);
}

#[test]
fn erase_of_an_empty_range_does_nothing() {
    let mut mock = f0_mock();
    assert_eq!(erase_sram(&mut mock, &f0_config(), BASE + 8, BASE + 4), Ok(()));
    assert!(mock.log().is_empty());
}

#[test]
fn erase_aborts_at_the_first_failed_page() {
    let mock = f0_mock().faulty_after(1, 1 << 4);
    let mut writer = FlashWriter::new(BASE..=BASE + 0xBFF, mock, f0_config()).unwrap();
    assert_eq!(writer.erase(), Err(FlashWriterError::WrpErr));
    let mock = writer.release_regs();
    let starts = mock.log().iter().filter(|access| matches!(access, Access::EraseStart)).count();
    assert_eq!(starts, 2);
    assert_eq!(mock.log().last(), Some(&Access::Lock));
    assert!(mock.locked());
}

#[test]
fn write_stops_when_the_region_is_full() {
    let mut writer = f0_writer(BASE, BASE + 6);
    assert_eq!(
        writer.write(&[1, 2, 3, 4, 5, 6, 7, 8, 9, 10]),
        Err(FlashWriterError::OutOfFlashWriterMemory)
    );
    assert_eq!(writer.get_next_write_address(), BASE + 6);
    assert_eq!(writer.get_image_len(), 10);
    let mock = writer.release_regs();
    let written = programs(mock.log());
    assert_eq!(written, vec![(BASE, 0x0201), (BASE + 2, 0x0403), (BASE + 4, 0x0605)]);
    for (address, _) in written {
        assert!(BASE <= address && address <= BASE + 6 - 2);
    }
    assert!(mock.memory()[6..].iter().all(|byte| *byte == 0));
}

#[test]
fn flush_stops_when_the_region_is_full() {
    let mut writer = f0_writer(BASE, BASE + 3);
    assert_eq!(writer.write(&[1, 2, 3]), Ok(()));
    assert_eq!(writer.flush(), Err(FlashWriterError::OutOfFlashWriterMemory));
    assert_eq!(writer.get_pending_len(), 1);
    assert_eq!(writer.get_next_write_address(), BASE + 2);
    let mock = writer.release_regs();
    assert_eq!(programs(mock.log()), vec![(BASE, 0x0201)]);
    assert_eq!(mock.log().last(), Some(&Access::Lock));
}

#[test]
fn unlock_that_fails_issues_no_command() {
    let mock = f0_mock().refusing_keys();
    let mut writer = FlashWriter::new(BASE..=BASE + 0x7FF, mock, f0_config()).unwrap();
    assert_eq!(writer.unlock(), Err(FlashWriterError::FlashLocked));
    assert_eq!(writer.erase(), Err(FlashWriterError::FlashLocked));
    assert_eq!(writer.write(&[1, 2, 3, 4]), Err(FlashWriterError::FlashLocked));
    assert_eq!(writer.get_image_len(), 4);
    assert_eq!(writer.get_pending_len(), 0);
    let mock = writer.release_regs();
    assert!(mock.locked());
    assert!(!mock.log().iter().any(|access| matches!(
        access,
        Access::EraseStart | Access::Program { .. } | Access::PageErase { .. }
    )));
    assert!(mock.memory().iter().all(|byte| *byte == 0));
}

#[test]
fn unlock_skips_the_keys_when_unlocked() {
    let mut writer = f0_writer(BASE, BASE + 0x3FF);
    assert_eq!(writer.unlock(), Ok(()));
    let before = writer.get_regs().log().len();
    assert_eq!(writer.unlock(), Ok(()));
    assert_eq!(
        &writer.get_regs().log()[before..],
        &[
            Access::BusyRead { busy: false },
            Access::StatusRead { bits: 0 },
            Access::LockRead { locked: false },
            Access::LockRead { locked: false },
        ]
    );
    writer.lock();
    assert!(writer.get_regs().locked());
}

#[test]
fn wait_times_out_after_exactly_the_poll_budget() {
    for budget in [0u32, 1, 7, 220] {
        let mut mock = f0_mock().stuck_after(0);
        mock.start_erase();
        let before = mock.log().len();
        let result = check_bsy_sram(&mut mock, budget, &all_bits());
        assert_eq!(result, Err(FlashWriterError::BsyTimeout));
        assert_eq!(mock.log().len() - before, budget as usize);
        assert_eq!(busy_reads(mock.log()), budget as usize);
    }
}

#[test]
fn wait_returns_once_the_controller_is_ready() {
    let mut mock = f0_mock().with_busy_polls(3);
    mock.start_erase();
    assert_eq!(check_bsy_sram(&mut mock, 4, &all_bits()), Ok(()));
    assert_eq!(busy_reads(mock.log()), 4);
    let mut mock = f0_mock().with_busy_polls(3);
    mock.start_erase();
    assert_eq!(check_bsy_sram(&mut mock, 3, &all_bits()), Err(FlashWriterError::BsyTimeout));
    assert_eq!(busy_reads(mock.log()), 3);
}

#[test]
fn write_reports_a_stuck_controller() {
    let mock = f0_mock().stuck_after(1);
    let mut writer = FlashWriter::new(BASE..=BASE + 0x3FF, mock, f0_config()).unwrap();
    assert_eq!(writer.write(&[1, 2, 3, 4, 5, 6]), Err(FlashWriterError::BsyTimeout));
    assert_eq!(writer.get_next_write_address(), BASE + 2);
    assert_eq!(writer.get_pending_len(), 0);
    assert_eq!(writer.get_image_len(), 6);
    let mock = writer.release_regs();
    assert_eq!(programs(mock.log()), vec![(BASE, 0x0201), (BASE + 2, 0x0403)]);
}

#[test]
fn failed_first_chunk_keeps_the_pending_bytes() {
    let mock = f0_mock().faulty_after(0, 1 << 2);
    let mut writer = FlashWriter::new(BASE..=BASE + 0x3FF, mock, f0_config()).unwrap();
    assert_eq!(writer.write(&[1]), Ok(()));
    assert_eq!(writer.write(&[2, 3, 4]), Err(FlashWriterError::ProgErr));
    assert_eq!(writer.get_pending_len(), 1);
    assert_eq!(writer.get_next_write_address(), BASE);
    assert_eq!(writer.get_image_len(), 4);
}

#[test]
fn status_decoder_reports_the_first_flag() {
    let bits = all_bits();
    assert_eq!(check_errors(0, &bits), Ok(()));
    assert_eq!(check_errors(1 << 3, &bits), Err(FlashWriterError::ProgErr));
    assert_eq!(check_errors(1 << 6, &bits), Err(FlashWriterError::SizeErr));
    assert_eq!(check_errors(1 << 5, &bits), Err(FlashWriterError::PgaErr));
    assert_eq!(check_errors(1 << 7, &bits), Err(FlashWriterError::PgsErr));
    assert_eq!(check_errors(1 << 4, &bits), Err(FlashWriterError::WrpErr));
    assert_eq!(check_errors(1 << 8, &bits), Err(FlashWriterError::MissErr));
    assert_eq!(check_errors(1 << 9, &bits), Err(FlashWriterError::FastErr));
    assert_eq!(check_errors((1 << 9) | (1 << 4), &bits), Err(FlashWriterError::WrpErr));
    assert_eq!(check_errors(0xFFFF_FFFF, &bits), Err(FlashWriterError::ProgErr));
    assert_eq!(check_errors((1 << 0) | (1 << 16) | (1 << 31), &bits), Ok(()));
}

#[test]
fn status_decoder_knows_the_f0_flags() {
    let config = f0_config();
    assert_eq!(check_errors(0x04, config.status()), Err(FlashWriterError::ProgErr));
    assert_eq!(check_errors(0x10, config.status()), Err(FlashWriterError::WrpErr));
    assert_eq!(check_errors(0x21, config.status()), Ok(()));
    let mut mock = f0_mock().faulty_after(0, 0x10);
    mock.start_erase();
    assert_eq!(check_errors_ram(&mut mock, config.status()), Err(FlashWriterError::WrpErr));
}

#[test]
fn assemble_is_little_endian() {
    let bytes = [0x11, 0x22, 0x33, 0x44, 0x55, 0x66, 0x77, 0x88, 0x99];
    assert_eq!(assemble(&bytes, 0, 2), 0x2211);
    assert_eq!(assemble(&bytes, 1, 4), 0x5544_3322);
    assert_eq!(assemble(&bytes, 1, 8), 0x9988_7766_5544_3322);
    assert_eq!(assemble(&bytes, 3, 0), 0);
}

#[test]
fn program_operation_brackets_the_chunk() {
    let config = f0_config();
    let mut mock = f0_mock();
    mock.write_key(KEY_1);
    mock.write_key(KEY_2);
    let before = mock.log().len();
    assert_eq!(write_sram(&mut mock, BASE + 4, 0xBEEF, &config), Ok(()));
    assert_eq!(
        &mock.log()[before..],
        &[
            Access::ProgramEnable { enable: true },
            Access::Program { address: BASE + 4, chunk: 0xBEEF },
            Access::BusyRead { busy: false },
            Access::StatusRead { bits: 0 },
            Access::ProgramEnable { enable: false },
        ]
    );
    assert_eq!(&mock.memory()[4..6], &[0xEF, 0xBE]);
}

#[test]
fn layout_finds_banks_and_rejects_gaps() {
    let first = Bank { start_address: 0, end_address: 99, bank_index: 0, start_page_number: 0 };
    let second = Bank { start_address: 100, end_address: 199, bank_index: 1, start_page_number: 4 };
    let gap = Bank { start_address: 101, end_address: 199, bank_index: 1, start_page_number: 4 };
    let layout = BankLayout::new(vec![first, second]).unwrap();
    assert_eq!(layout.len(), 2);
    assert_eq!(layout.bank(1), second);
    assert_eq!(layout.find(0), Some(first));
    assert_eq!(layout.find(99), Some(first));
    assert_eq!(layout.find(100), Some(second));
    assert_eq!(layout.find(200), None);
    assert_eq!(layout.extent(), Some((0, 199)));
    assert!(BankLayout::new(vec![first, gap]).is_none());
    assert!(BankLayout::new(vec![second, first]).is_none());
    assert_eq!(BankLayout::new(Vec::new()).unwrap().extent(), None);
    assert!(BankLayout::single(5, 4).is_none());
}

#[test]
fn config_checks_its_parts() {
    let bits = all_bits();
    assert!(FlashConfig::new(3, 1024, 1, bits, BankLayout::single(0, 1023).unwrap()).is_none());
    assert!(FlashConfig::new(2, 0, 1, bits, BankLayout::single(0, 1023).unwrap()).is_none());
    let far = Bank { start_address: 0, end_address: 1023, bank_index: 0, start_page_number: u32::MAX };
    assert!(FlashConfig::new(2, 512, 1, bits, BankLayout::new(vec![far]).unwrap()).is_none());
    assert!(FlashConfig::stm32f0(0, 1).is_none());
    let config = FlashConfig::stm32f0(64, 9).unwrap();
    assert_eq!(config.chunk_width(), 2);
    assert_eq!(config.page_size(), 1024);
    assert_eq!(config.max_polls(), 9);
    assert_eq!(config.layout().extent(), Some((BASE, BASE + 64 * 1024 - 1)));
}

#[test]
fn mock_blocks_the_unlock_after_a_wrong_key() {
    let mut mock = f0_mock();
    mock.write_key(KEY_2);
    mock.write_key(KEY_1);
    mock.write_key(KEY_2);
    assert!(mock.is_locked());
    mock.set_lock();
    mock.write_key(KEY_1);
    mock.write_key(KEY_2);
    assert!(!mock.is_locked());
}

#[test]
fn read_passes_through_outside_the_region() {
    let mut writer = f0_writer(BASE + 0x400, BASE + 0x7FF);
    assert_eq!(writer.write(&[0xAA, 0xBB]), Ok(()));
    assert_eq!(writer.read(BASE + 0x3FF, 4), vec![0, 0xAA, 0xBB, 0]);
    assert_eq!(writer.read(0xFFFF_FFFF, 1), vec![0xFF]);
    assert_eq!(writer.read(BASE, 0), Vec::<u8>::new());
}

struct Scripted {
    calls: Vec<Access>,
    busy: Vec<bool>,
    locked: Vec<bool>,
    status: u32,
}

impl Scripted {
    fn call(&mut self, access: Access) {
        self.calls.push(access);
    }
}

impl FlashController for Scripted {
    fn is_busy(&mut self) -> bool {
        let busy = if self.busy.is_empty() { false } else { self.busy.remove(0) };
        self.call(Access::BusyRead { busy });
        busy
    }

    fn read_status(&mut self) -> u32 {
        let bits = self.status;
        self.call(Access::StatusRead { bits });
        bits
    }

    fn is_locked(&mut self) -> bool {
        let locked = if self.locked.is_empty() { false } else { self.locked.remove(0) };
        self.call(Access::LockRead { locked });
        locked
    }

    fn enable_completion_interrupt(&mut self) {
        self.call(Access::CompletionInterruptEnable);
    }

    fn clear_status(&mut self) {
        self.call(Access::StatusClear);
    }

    fn write_key(&mut self, key: u32) {
        self.call(Access::KeyWrite { key });
    }

    fn set_lock(&mut self) {
        self.call(Access::Lock);
    }

    fn set_page_erase(&mut self, enable: bool) {
        self.call(Access::PageErase { enable });
    }

    fn select_bank(&mut self, bank: u8) {
        self.call(Access::BankSelect { bank });
    }

    fn select_page(&mut self, page: u32, address: u32) {
        self.call(Access::PageSelect { page, address });
    }

    fn start_erase(&mut self) {
        self.call(Access::EraseStart);
    }

    fn set_program(&mut self, enable: bool) {
        self.call(Access::ProgramEnable { enable });
    }

    fn program(&mut self, address: u32, chunk: u64) {
        self.call(Access::Program { address, chunk });
    }

    fn read_byte(&mut self, address: u32) -> u8 {
        let value = address as u8;
        self.call(Access::MemoryRead { address, value });
        value
    }
}

#[test]
fn recorded_controller_gets_each_call_once() {
    let scripted = Scripted {
        calls: Vec::new(),
        busy: vec![true, true, false],
        locked: vec![true, false],
        status: 0,
    };
    let mut writer = FlashWriter::new(BASE..=BASE + 0x3FF, Recorded::new(scripted), f0_config()).unwrap();
    assert_eq!(writer.write(&[0x34, 0x12, 0x56]), Ok(()));
    assert_eq!(writer.flush(), Ok(()));
    assert_eq!(writer.read(BASE + 0x10, 2), vec![0x10, 0x11]);
    let scripted = writer.release_regs().release();
    assert_eq!(
        scripted.calls,
        vec![
            Access::CompletionInterruptEnable,
            Access::StatusClear,
            Access::BusyRead { busy: true },
            Access::BusyRead { busy: true },
            Access::BusyRead { busy: false },
            Access::StatusRead { bits: 0 },
            Access::LockRead { locked: true },
            Access::KeyWrite { key: KEY_1 },
            Access::KeyWrite { key: KEY_2 },
            Access::LockRead { locked: false },
            Access::ProgramEnable { enable: true },
            Access::Program { address: BASE, chunk: 0x1234 },
            Access::BusyRead { busy: false },
            Access::StatusRead { bits: 0 },
            Access::ProgramEnable { enable: false },
            Access::ProgramEnable { enable: true },
            Access::Program { address: BASE + 2, chunk: 0xFF56 },
            Access::BusyRead { busy: false },
            Access::StatusRead { bits: 0 },
            Access::ProgramEnable { enable: false },
            Access::Lock,
            Access::MemoryRead { address: BASE + 0x10, value: 0x10 },
            Access::MemoryRead { address: BASE + 0x11, value: 0x11 },
        ]
    );
}

#[test]
fn recorded_controller_that_stays_locked_gets_no_command() {
    let scripted = Scripted {
        calls: Vec::new(),
        busy: Vec::new(),
        locked: vec![true, true, true, true],
        status: 0,
    };
    let mut writer = FlashWriter::new(BASE..=BASE + 0x3FF, Recorded::new(scripted), f0_config()).unwrap();
    assert_eq!(writer.erase(), Err(FlashWriterError::FlashLocked));
    assert_eq!(writer.write(&[1, 2]), Err(FlashWriterError::FlashLocked));
    let scripted = writer.release_regs().release();
    assert_eq!(
        &scripted.calls[2..],
        &[
            Access::BusyRead { busy: false },
            Access::StatusRead { bits: 0 },
            Access::LockRead { locked: true },
            Access::KeyWrite { key: KEY_1 },
            Access::KeyWrite { key: KEY_2 },
            Access::LockRead { locked: true },
            Access::Lock,
            Access::BusyRead { busy: false },
            Access::StatusRead { bits: 0 },
            Access::LockRead { locked: true },
            Access::KeyWrite { key: KEY_1 },
            Access::KeyWrite { key: KEY_2 },
            Access::LockRead { locked: true },
        ][..]
    );
}
