use lib::opt::{Optimize, Repeat};

/// Takes one from a positive number; says whether it did.
struct Decrement {
    runs: usize,
}

impl Optimize<u32> for Decrement {
    fn optimize(&mut self, code: &mut u32) -> bool {
        self.runs += 1;
        if *code > 0 {
            *code -= 1;
            true
        } else {
            false
        }
    }
}

#[test]
fn repeat_until_no_change() {
    let mut pass = Repeat::new(Decrement { runs: 0 }, 10);
    let mut code = 3u32;
    assert!(pass.optimize(&mut code));
    assert_eq!(code, 0);
    let mut code = 0u32;
    assert!(!pass.optimize(&mut code));
}

#[test]
fn repeat_within_limit() {
    let mut pass = Repeat::new(Decrement { runs: 0 }, 2);
    let mut code = 10u32;
    assert!(pass.optimize(&mut code));
    // the first run and at most two more
    assert_eq!(code, 7);
}
