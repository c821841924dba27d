use cursor_binary_parser::binary_cursor::{BinaryCursor, BinaryCursorError, BinaryCursorJump};
use cursor_binary_parser::error::ParseFailure;

fn is_invalid_offset<V>(result: &Result<V, BinaryCursorError>) -> bool {
    matches!(result, Err(BinaryCursorError::ParseError(ParseFailure::InvalidOffset)))
}

fn is_insufficient_data<V>(result: &Result<V, BinaryCursorError>) -> bool {
    matches!(result, Err(BinaryCursorError::ParseError(ParseFailure::InsufficientData)))
}

fn peek(cursor: &mut BinaryCursor<Vec<u8>>, at: u64) -> Result<u32, BinaryCursorError> {
    let mut jump = BinaryCursorJump::new(cursor);
    jump.jump(at)?;
    jump.cursor.parse_u32_le()
}

#[test]
fn push_then_pop_returns_the_saved_offset() {
    let mut cursor = BinaryCursor::new(vec![0u8; 16]);
    for offset in [0u64, 1, 15, 16, 17, 4294967295, 4294967296, u64::MAX] {
        cursor.set_position(offset);
        cursor.push_location();
        assert_eq!(cursor.position(), offset);
        assert_eq!(cursor.pop_location(), Some(offset));
        assert_eq!(cursor.position(), offset);
        assert_eq!(cursor.pop_location(), None);
    }
}

#[test]
fn pop_takes_the_most_recent_first() {
    let mut cursor = BinaryCursor::new(vec![0u8; 8]);
    cursor.set_position(3);
    cursor.push_location();
    cursor.set_position(5);
    cursor.push_location();
    cursor.set_position(7);
    assert_eq!(cursor.pop_location(), Some(5));
    assert_eq!(cursor.pop_location(), Some(3));
    assert_eq!(cursor.pop_location(), None);
    assert_eq!(cursor.position(), 7);
}

#[test]
fn restore_on_an_empty_stack_changes_nothing() {
    let mut cursor = BinaryCursor::new(vec![0u8; 8]);
    cursor.set_position(6);
    assert!(!cursor.restore_location());
    assert_eq!(cursor.position(), 6);
    assert_eq!(cursor.pop_location(), None);
}

#[test]
fn restore_moves_to_the_most_recent_and_removes_it() {
    let mut cursor = BinaryCursor::new(vec![0u8; 8]);
    cursor.set_position(1);
    cursor.push_location();
    cursor.set_position(4);
    cursor.push_location();
    cursor.set_position(7);
    assert!(cursor.restore_location());
    assert_eq!(cursor.position(), 4);
    assert!(cursor.restore_location());
    assert_eq!(cursor.position(), 1);
    assert!(!cursor.restore_location());
    assert_eq!(cursor.position(), 1);
}

#[test]
fn decoding_leaves_the_stack_alone() {
    let mut cursor = BinaryCursor::new(vec![1u8, 2, 3]);
    cursor.set_position(1);
    cursor.push_location();
    assert_eq!(cursor.parse_u16_le().unwrap(), 0x0302);
    assert!(is_insufficient_data(&cursor.parse_u8()));
    assert_eq!(cursor.pop_location(), Some(1));
    assert_eq!(cursor.pop_location(), None);
}

#[test]
fn jump_then_scope_exit_restores_the_offset() {
    let mut cursor = BinaryCursor::new(vec![1u8, 2, 3, 4, 5, 6, 7, 8]);
    cursor.set_position(3);
    {
        let mut jump = BinaryCursorJump::new(&mut cursor);
        jump.jump(6).unwrap();
        assert_eq!(jump.cursor.position(), 6);
        assert_eq!(jump.cursor.parse_u16_le().unwrap(), 0x0807);
        assert_eq!(jump.cursor.position(), 8);
    }
    assert_eq!(cursor.position(), 3);
    assert_eq!(cursor.pop_location(), None);
}

#[test]
fn jump_restores_even_after_a_failed_decode() {
    let mut cursor = BinaryCursor::new(vec![1u8, 2, 3, 4, 5, 6]);
    cursor.set_position(1);
    assert_eq!(peek(&mut cursor, 2).unwrap(), 0x0605_0403);
    assert_eq!(cursor.position(), 1);
    assert!(is_insufficient_data(&peek(&mut cursor, 4)));
    assert_eq!(cursor.position(), 1);
    assert!(is_insufficient_data(&peek(&mut cursor, 600)));
    assert_eq!(cursor.position(), 1);
    assert_eq!(cursor.pop_location(), None);
}

#[test]
fn borrowed_cursor_is_the_handles_cursor() {
    let mut cursor = BinaryCursor::new(vec![1u8, 2, 3, 4]);
    {
        let mut jump = BinaryCursorJump::new(&mut cursor);
        jump.jump(2).unwrap();
        assert_eq!(jump.cursor_mut().parse_u8().unwrap(), 3);
        assert_eq!(jump.cursor.position(), 3);
        assert!(is_insufficient_data(&jump.cursor_mut().parse_u16_le()));
        assert_eq!(jump.cursor_mut().position(), 3);
    }
    assert_eq!(cursor.position(), 0);
}

#[test]
fn jump_accepts_a_location_beyond_the_end() {
    let mut cursor = BinaryCursor::new(vec![1u8, 2]);
    {
        let mut jump = BinaryCursorJump::new(&mut cursor);
        assert!(jump.jump(u64::MAX).is_ok());
        assert_eq!(jump.cursor.position(), u64::MAX);
        assert!(is_insufficient_data(&jump.cursor.parse_u8()));
    }
    assert_eq!(cursor.position(), 0);
}

#[test]
fn handle_without_a_jump_leaves_cursor_and_stack_alone() {
    let mut cursor = BinaryCursor::new(vec![1u8, 2, 3, 4]);
    cursor.set_position(1);
    cursor.push_location();
    cursor.set_position(3);
    {
        let jump = BinaryCursorJump::new(&mut cursor);
        assert_eq!(jump.cursor.position(), 3);
    }
    assert_eq!(cursor.position(), 3);
    assert_eq!(cursor.pop_location(), Some(1));
}

#[test]
fn explicit_release_restores_once() {
    let mut cursor = BinaryCursor::new(vec![1u8, 2, 3, 4]);
    cursor.set_position(1);
    cursor.push_location();
    cursor.set_position(2);
    {
        let mut jump = BinaryCursorJump::new(&mut cursor);
        jump.jump(0).unwrap();
        jump.release();
        assert_eq!(jump.cursor.position(), 2);
        jump.release();
        assert_eq!(jump.cursor.position(), 2);
    }
    assert_eq!(cursor.position(), 2);
    assert_eq!(cursor.pop_location(), Some(1));
}

#[test]
fn each_jump_saves_the_offset_at_its_own_call() {
    let mut cursor = BinaryCursor::new(vec![0u8; 8]);
    cursor.set_position(1);
    {
        let mut jump = BinaryCursorJump::new(&mut cursor);
        jump.jump(4).unwrap();
        jump.jump_relative(2).unwrap();
        assert_eq!(jump.cursor.position(), 6);
    }
    assert_eq!(cursor.position(), 4);
    assert_eq!(cursor.pop_location(), Some(1));
    assert_eq!(cursor.pop_location(), None);
}

#[test]
fn nested_relative_jumps_unwind_in_order() {
    let mut cursor = BinaryCursor::new(vec![0x01u8, 0x02, 0x03, 0x04, 0x05]);
    cursor.set_position(1);
    {
        let mut outer = BinaryCursorJump::new(&mut cursor);
        outer.jump_relative(2).unwrap();
        assert_eq!(outer.cursor.position(), 3);
        {
            let mut inner = BinaryCursorJump::new(&mut *outer.cursor);
            inner.jump_relative(-1).unwrap();
            assert_eq!(inner.cursor.position(), 2);
            assert_eq!(inner.cursor.parse_u8().unwrap(), 0x03);
        }
        assert_eq!(outer.cursor.position(), 3);
        assert_eq!(outer.cursor.parse_u8().unwrap(), 0x04);
    }
    assert_eq!(cursor.position(), 1);
    assert_eq!(cursor.pop_location(), None);
}

#[test]
fn relative_jump_below_zero_fails_and_moves_nothing() {
    let mut cursor = BinaryCursor::new(vec![0x01u8, 0x02]);
    cursor.set_position(1);
    {
        let mut jump = BinaryCursorJump::new(&mut cursor);
        assert!(is_invalid_offset(&jump.jump_relative(-2)));
        assert_eq!(jump.cursor.position(), 1);
        assert_eq!(jump.cursor.pop_location(), None);
        assert!(is_invalid_offset(&jump.jump_relative(i64::MIN)));
        assert_eq!(jump.cursor.position(), 1);
    }
    assert_eq!(cursor.position(), 1);
}

#[test]
fn relative_jump_back_to_zero_is_valid() {
    let mut cursor = BinaryCursor::new(vec![0u8; 8]);
    cursor.set_position(5);
    {
        let mut jump = BinaryCursorJump::new(&mut cursor);
        jump.jump_relative(-5).unwrap();
        assert_eq!(jump.cursor.position(), 0);
    }
    assert_eq!(cursor.position(), 5);
    {
        let mut jump = BinaryCursorJump::new(&mut cursor);
        assert!(is_invalid_offset(&jump.jump_relative(-6)));
    }
    assert_eq!(cursor.position(), 5);
}

#[test]
fn relative_jump_beyond_the_largest_offset_fails() {
    let mut cursor = BinaryCursor::new(vec![0u8; 2]);
    cursor.set_position(u64::MAX - 1);
    {
        let mut jump = BinaryCursorJump::new(&mut cursor);
        assert!(is_invalid_offset(&jump.jump_relative(2)));
        assert_eq!(jump.cursor.position(), u64::MAX - 1);
        jump.jump_relative(1).unwrap();
        assert_eq!(jump.cursor.position(), u64::MAX);
    }
    assert_eq!(cursor.position(), u64::MAX - 1);
    assert_eq!(cursor.pop_location(), None);
}

#[test]
fn relative_jump_spans_the_whole_range() {
    let mut cursor = BinaryCursor::new(vec![0u8; 2]);
    {
        let mut jump = BinaryCursorJump::new(&mut cursor);
        jump.jump_relative(i64::MAX).unwrap();
        assert_eq!(jump.cursor.position(), 9223372036854775807);
        jump.jump_relative(i64::MAX).unwrap();
        assert_eq!(jump.cursor.position(), 18446744073709551614);
        jump.jump_relative(i64::MIN).unwrap();
        assert_eq!(jump.cursor.position(), 9223372036854775806);
        jump.jump_relative(0).unwrap();
        assert_eq!(jump.cursor.position(), 9223372036854775806);
    }
    assert_eq!(cursor.position(), 9223372036854775806);
    assert_eq!(cursor.pop_location(), Some(18446744073709551614));
    assert_eq!(cursor.pop_location(), Some(9223372036854775807));
    assert_eq!(cursor.pop_location(), Some(0));
    assert_eq!(cursor.pop_location(), None);
}

#[test]
fn failed_relative_jump_keeps_an_earlier_jump_pending() {
    let mut cursor = BinaryCursor::new(vec![0u8; 8]);
    cursor.set_position(2);
    {
        let mut jump = BinaryCursorJump::new(&mut cursor);
        jump.jump(1).unwrap();
        assert!(is_invalid_offset(&jump.jump_relative(-3)));
        assert_eq!(jump.cursor.position(), 1);
    }
    assert_eq!(cursor.position(), 2);
    assert_eq!(cursor.pop_location(), None);
}
