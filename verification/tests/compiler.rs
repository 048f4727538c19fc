use jit_predicate::arena::{fill_arena, page_aligned_size, Fill};
use jit_predicate::compiler::{
    block_template, build_is_odd, build_predicate, header, patch_block, required_size, Target,
    BLOCK_LEN, HEADER_LEN, KEY_OFFSET, RESULT_OFFSET, SKIP_DISTANCE,
};
use jit_predicate::error::JitError;
use jit_predicate::machine::{invoke, Outcome};
use jit_predicate::predicate::{IsOdd, Predicate};

fn arena(len: usize, fill: Fill) -> Vec<u8> {
    let mut arena = vec![0u8; len];
    fill_arena(&mut arena, fill);
    arena
}

fn is_odd_over(max: u32, fill: Fill) -> Vec<u8> {
    let size = page_aligned_size(required_size(max) as usize + 2).unwrap();
    let mut arena = arena(size, fill);
    build_is_odd(Target::X86_64, &mut arena, max).unwrap();
    arena
}

struct MultipleOfThree;

impl Predicate for MultipleOfThree {
    fn holds(&self, k: u32) -> bool {
        k % 3 == 0
    }

    fn eval(&self, k: u32) -> bool {
        self.holds(k)
    }
}

#[test]
fn is_odd_tells_odd_from_even() {
    assert!(!IsOdd.eval(0));
    assert!(IsOdd.eval(1));
    assert!(!IsOdd.eval(2));
    assert!(IsOdd.eval(3));
    assert!(!IsOdd.eval(1 << 30));
    assert!(IsOdd.eval(u32::MAX));
}

#[test]
fn header_loads_the_default_result() {
    assert_eq!(header(), [0x48, 0xc7, 0xc0, 0x00, 0x00, 0x00, 0x00]);
    assert_eq!(header().len(), HEADER_LEN);
}

#[test]
fn template_holds_its_placeholders() {
    let template = block_template();
    assert_eq!(
        template,
        [
            0x48, 0x81, 0xff, 0x78, 0x56, 0x34, 0x12,
            0x0f, 0x85, 0x08, 0x00, 0x00, 0x00,
            0x48, 0xc7, 0xc0, 0x01, 0x00, 0x00, 0x00,
            0xc3,
        ]
    );
    assert_eq!(template.len(), BLOCK_LEN);
    assert_eq!(template[KEY_OFFSET..KEY_OFFSET + 4], 0x1234_5678u32.to_le_bytes());
    assert_eq!(template[RESULT_OFFSET], 1);
}

#[test]
fn the_jump_skips_the_load_and_the_return() {
    let template = block_template();
    assert_eq!(template[9..13], SKIP_DISTANCE.to_le_bytes());
    assert_eq!(SKIP_DISTANCE as usize, BLOCK_LEN - 13);
}

#[test]
fn patching_sets_the_value_and_the_result_only() {
    let mut block = block_template();
    patch_block(&mut block, 3, true);
    assert_eq!(
        block,
        [
            0x48, 0x81, 0xff, 0x03, 0x00, 0x00, 0x00,
            0x0f, 0x85, 0x08, 0x00, 0x00, 0x00,
            0x48, 0xc7, 0xc0, 0x01, 0x00, 0x00, 0x00,
            0xc3,
        ]
    );
    patch_block(&mut block, 0x0403_0201, false);
    assert_eq!(
        block,
        [
            0x48, 0x81, 0xff, 0x01, 0x02, 0x03, 0x04,
            0x0f, 0x85, 0x08, 0x00, 0x00, 0x00,
            0x48, 0xc7, 0xc0, 0x00, 0x00, 0x00, 0x00,
            0xc3,
        ]
    );
}

#[test]
fn patching_the_placeholders_back_restores_the_template() {
    let mut block = block_template();
    patch_block(&mut block, 77, false);
    patch_block(&mut block, 0x1234_5678, true);
    assert_eq!(block, block_template());
}

#[test]
fn required_size_is_the_header_and_one_block_per_value() {
    assert_eq!(required_size(0), 28);
    assert_eq!(required_size(1), 49);
    assert_eq!(required_size(200), 4228);
    assert_eq!(required_size(255), 5383);
    assert_eq!(required_size(1 << 30), 7 + 21 * ((1u64 << 30) + 1));
    assert_eq!(required_size(u32::MAX), 7 + 21 * (1u64 << 32));
}

#[test]
fn a_build_lays_out_the_header_and_the_blocks_in_ascending_order() {
    let mut arena = arena(64, Fill::Trap);
    assert_eq!(build_is_odd(Target::X86_64, &mut arena, 1), Ok(49));
    let expected: Vec<u8> = vec![
        0x48, 0xc7, 0xc0, 0x00, 0x00, 0x00, 0x00,
        0x48, 0x81, 0xff, 0x00, 0x00, 0x00, 0x00,
        0x0f, 0x85, 0x08, 0x00, 0x00, 0x00,
        0x48, 0xc7, 0xc0, 0x00, 0x00, 0x00, 0x00,
        0xc3,
        0x48, 0x81, 0xff, 0x01, 0x00, 0x00, 0x00,
        0x0f, 0x85, 0x08, 0x00, 0x00, 0x00,
        0x48, 0xc7, 0xc0, 0x01, 0x00, 0x00, 0x00,
        0xc3,
        0x0b, 0x0f, 0x0b, 0x0f, 0x0b, 0x0f, 0x0b, 0x0f, 0x0b, 0x0f, 0x0b, 0x0f, 0x0b, 0x0f, 0x0b,
    ];
    assert_eq!(arena, expected);
}

#[test]
fn a_build_leaves_the_fill_behind_the_code() {
    let mut arena = arena(8192, Fill::Trap);
    let end = build_is_odd(Target::X86_64, &mut arena, 200).unwrap();
    assert_eq!(end, 4228);
    for (i, byte) in arena.iter().enumerate().skip(end) {
        assert_eq!(*byte, if i % 2 == 0 { 0x0f } else { 0x0b });
    }
}

#[test]
fn a_build_may_fill_the_arena_exactly() {
    let mut arena = arena(28, Fill::Trap);
    assert_eq!(build_is_odd(Target::X86_64, &mut arena, 0), Ok(28));
    assert_eq!(invoke(&arena, 0, 10), Outcome::Returned(0));
    assert_eq!(invoke(&arena, 1, 10), Outcome::Faulted);
}

#[test]
fn is_odd_over_the_u8_numbers() {
    let arena = is_odd_over(255, Fill::Trap);
    assert_eq!(invoke(&arena, 3, 1_000), Outcome::Returned(1));
    assert_eq!(invoke(&arena, 4, 1_000), Outcome::Returned(0));
    assert_eq!(invoke(&arena, 255, 1_000), Outcome::Returned(1));
}

#[test]
fn out_of_domain_argument_traps() {
    let arena = is_odd_over(200, Fill::Trap);
    assert_eq!(invoke(&arena, 201, 1_000), Outcome::Trapped);
    assert_eq!(invoke(&arena, -1, 1_000), Outcome::Trapped);
    assert_eq!(invoke(&arena, i64::MAX, 1_000), Outcome::Trapped);
    assert_eq!(invoke(&arena, i64::MIN, 1_000), Outcome::Trapped);
    assert_eq!(invoke(&arena, (1 << 32) + 3, 1_000), Outcome::Trapped);
}

#[test]
fn every_value_of_the_domain_gets_its_truth_value() {
    let mut arena = arena(4096, Fill::Trap);
    assert_eq!(
        build_predicate(Target::X86_64, &mut arena, 100, &MultipleOfThree),
        Ok(7 + 21 * 101)
    );
    for n in 0..=100i64 {
        let expected = if n % 3 == 0 { 1 } else { 0 };
        assert_eq!(invoke(&arena, n, 1_000), Outcome::Returned(expected));
    }
}

#[test]
fn the_result_does_not_depend_on_what_the_arena_held() {
    let mut first = vec![0x00u8; 4096];
    let mut second = vec![0xffu8; 4096];
    build_is_odd(Target::X86_64, &mut first, 100).unwrap();
    build_is_odd(Target::X86_64, &mut second, 100).unwrap();
    for n in 0..=100i64 {
        assert_eq!(invoke(&first, n, 1_000), Outcome::Returned(n & 1));
        assert_eq!(invoke(&second, n, 1_000), Outcome::Returned(n & 1));
    }
}

#[test]
fn boundaries_of_the_domain() {
    let arena = is_odd_over(200, Fill::Trap);
    assert_eq!(invoke(&arena, 0, 1_000), Outcome::Returned(0));
    assert_eq!(invoke(&arena, 200, 1_000), Outcome::Returned(0));
    assert_eq!(invoke(&arena, 201, 1_000), Outcome::Trapped);
    let arena = is_odd_over(200, Fill::Return);
    assert_eq!(invoke(&arena, 0, 1_000), Outcome::Returned(0));
    assert_eq!(invoke(&arena, 200, 1_000), Outcome::Returned(0));
    assert_eq!(invoke(&arena, 201, 1_000), Outcome::Returned(0));
}

#[test]
fn lenient_fill_returns_the_default_out_of_domain() {
    let arena = is_odd_over(255, Fill::Return);
    assert_eq!(invoke(&arena, 255, 1_000), Outcome::Returned(1));
    assert_eq!(invoke(&arena, 256, 1_000), Outcome::Returned(0));
    assert_eq!(invoke(&arena, 257, 1_000), Outcome::Returned(0));
    assert_eq!(invoke(&arena, -1, 1_000), Outcome::Returned(0));
}

#[test]
fn an_odd_maximum_leaves_the_trap_pattern_out_of_step() {
    let arena = is_odd_over(255, Fill::Trap);
    assert_eq!(required_size(255) % 2, 1);
    assert_eq!(arena[5383..5387], [0x0b, 0x0f, 0x0b, 0x0f]);
    assert_eq!(invoke(&arena, 256, 1_000), Outcome::Faulted);
}

#[test]
fn a_value_takes_two_steps_per_block_passed_and_five_more() {
    let arena = is_odd_over(200, Fill::Trap);
    for k in [0u64, 1, 7, 200] {
        assert_eq!(invoke(&arena, k as i64, 2 * k + 5), Outcome::Returned((k & 1) as i64));
        assert_eq!(invoke(&arena, k as i64, 2 * k + 4), Outcome::Unfinished);
    }
    assert_eq!(invoke(&arena, 201, 2 * 201 + 2), Outcome::Trapped);
    assert_eq!(invoke(&arena, 201, 2 * 201 + 1), Outcome::Unfinished);
}

#[test]
fn two_builds_give_the_same_bytes() {
    let mut first = arena(8192, Fill::Trap);
    let mut second = arena(8192, Fill::Trap);
    let end = build_is_odd(Target::X86_64, &mut first, 255).unwrap();
    assert_eq!(build_is_odd(Target::X86_64, &mut second, 255), Ok(end));
    assert_eq!(first, second);
    let mut third = vec![0u8; 12_288];
    assert_eq!(build_is_odd(Target::X86_64, &mut third, 255), Ok(end));
    assert_eq!(first[..end], third[..end]);
}

#[test]
fn too_small_an_arena_is_refused_untouched() {
    let mut small = arena(4096, Fill::Trap);
    let fresh = small.clone();
    assert_eq!(build_is_odd(Target::X86_64, &mut small, 255), Err(JitError::CapacityExceeded));
    assert_eq!(small, fresh);
}

#[test]
fn one_byte_too_few_is_refused() {
    let mut arena = arena(48, Fill::Trap);
    let fresh = arena.clone();
    assert_eq!(build_is_odd(Target::X86_64, &mut arena, 1), Err(JitError::CapacityExceeded));
    assert_eq!(arena, fresh);
    let mut empty: Vec<u8> = Vec::new();
    assert_eq!(build_is_odd(Target::X86_64, &mut empty, 0), Err(JitError::CapacityExceeded));
}

#[test]
fn the_whole_32_bit_domain_is_refused_for_want_of_room() {
    let mut arena = arena(4096, Fill::Trap);
    let fresh = arena.clone();
    assert_eq!(
        build_is_odd(Target::X86_64, &mut arena, u32::MAX),
        Err(JitError::CapacityExceeded)
    );
    assert_eq!(arena, fresh);
}

#[test]
fn a_target_without_encoder_is_refused_untouched() {
    let mut arena = arena(4096, Fill::Trap);
    let fresh = arena.clone();
    assert_eq!(build_is_odd(Target::Aarch64, &mut arena, 10), Err(JitError::UnsupportedTarget));
    assert_eq!(arena, fresh);
    assert_eq!(
        build_predicate(Target::Aarch64, &mut arena, 10, &MultipleOfThree),
        Err(JitError::UnsupportedTarget)
    );
    assert_eq!(arena, fresh);
}

#[test]
fn an_unsupported_target_is_reported_before_the_capacity() {
    let mut empty: Vec<u8> = Vec::new();
    assert_eq!(build_is_odd(Target::Aarch64, &mut empty, 10), Err(JitError::UnsupportedTarget));
}

#[test]
fn a_block_for_a_value_above_the_signed_range_answers_its_sign_extension() {
    let mut code = header().to_vec();
    let mut block = block_template();
    patch_block(&mut block, u32::MAX, true);
    code.extend_from_slice(&block);
    code.extend_from_slice(&[0x0f, 0x0b]);
    assert_eq!(invoke(&code, -1, 10), Outcome::Returned(1));
    assert_eq!(invoke(&code, u32::MAX as i64, 10), Outcome::Trapped);
}
