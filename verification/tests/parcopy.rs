use eye::ir::mc::parcopy::ParcopySolver;
use eye::ir::mc::register::UnknownRegister;

const TMP: u32 = 99;

fn r(i: u32) -> UnknownRegister {
    UnknownRegister(i)
}

fn case(inp: &[(u32, u32)], exp: &[(u32, u32)]) {
    let args: Vec<UnknownRegister> = inp.iter().flat_map(|&(a, b)| [r(a), r(b)]).collect();
    let res = ParcopySolver::new().parcopy(&args, r(TMP));
    let exp: Vec<(UnknownRegister, UnknownRegister)> =
        exp.iter().map(|&(a, b)| (r(a), r(b))).collect();
    assert_eq!(exp, res);
}

#[test]
fn parcopy_works() {
    // 0 <- 1, 1 <- 2 can stay in this order
    case(&[(0, 1), (1, 2)], &[(0, 1), (1, 2)]);
    // order gets swapped here
    case(&[(1, 2), (0, 1)], &[(0, 1), (1, 2)]);

    case(&[(0, 1), (1, 0)], &[(TMP, 1), (1, 0), (0, TMP)]);
    case(&[(1, 0), (0, 1)], &[(TMP, 0), (0, 1), (1, TMP)]);
    case(&[(0, 1), (1, 2), (2, 0)], &[(TMP, 2), (2, 0), (0, 1), (1, TMP)]);
    case(
        &[(0, 1), (1, 0), (2, 3), (3, 2)],
        &[(TMP, 3), (3, 2), (2, TMP), (TMP, 1), (1, 0), (0, TMP)],
    );
}

/// Runs copies one after the other.
fn run(copies: &[(UnknownRegister, UnknownRegister)]) -> Vec<u32> {
    let mut regs: Vec<u32> = (0..100).collect();
    for (to, from) in copies {
        regs[to.0 as usize] = regs[from.0 as usize];
    }
    regs
}

#[test]
fn copies_act_at_once() {
    let inp: [(u32, u32); 6] = [(0, 1), (1, 2), (2, 0), (3, 0), (4, 4), (5, 3)];
    let args: Vec<UnknownRegister> = inp.iter().flat_map(|&(a, b)| [r(a), r(b)]).collect();
    let mut solver = ParcopySolver::new();
    for _ in 0..2 {
        let after = run(&solver.parcopy(&args, r(TMP)));
        for (to, from) in inp {
            assert_eq!(after[to as usize], from);
        }
        assert_eq!(after[6], 6);
    }
}

#[test]
fn nothing_is_copied_without_assignments() {
    assert_eq!(ParcopySolver::new().parcopy(&[], r(TMP)), vec![]);
}
