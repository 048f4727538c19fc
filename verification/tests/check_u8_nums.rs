use jit_predicate::arena::{fill_arena, page_aligned_size, Fill};
use jit_predicate::compiler::{build_is_odd, required_size, Target};
use jit_predicate::machine::{invoke, Outcome};

const MAX_SUPPORTED_NUM: u32 = 1 << 8;

#[test]
fn check_u8_nums() {
    let size = page_aligned_size(required_size(MAX_SUPPORTED_NUM) as usize).unwrap();
    let mut jit = vec![0u8; size];
    fill_arena(&mut jit, Fill::Trap);
    build_is_odd(Target::X86_64, &mut jit, MAX_SUPPORTED_NUM).unwrap();
    let is_odd = |n: i64| match invoke(&jit, n, 1 << 16) {
        Outcome::Returned(r) => r,
        other => panic!("is_odd({n}) ended as {other:?}"),
    };

    println!("Checking all numbers 0..{MAX_SUPPORTED_NUM}");
    for n in 0..MAX_SUPPORTED_NUM {
        let is_n_odd = is_odd(n as i64);
        if n & 1 == 0 {
            assert!(is_n_odd == 0, "is_odd({n}) == {is_n_odd}, but {n} is even!");
        } else {
            assert!(is_n_odd == 1, "is_odd({n}) == {is_n_odd}, but {n} is odd!");
        }
    }
}
