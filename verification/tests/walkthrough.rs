use subtake::walkthrough::{next_after_check, Next, POLL_MS};

#[test]
fn a_wait_advances_polls_or_fails() {
    assert_eq!(next_after_check(true, 0), Next::Advance);
    assert_eq!(next_after_check(true, 5_000), Next::Advance);
    assert_eq!(next_after_check(false, 0), Next::Fail);
    assert_eq!(next_after_check(false, 1_000), Next::Poll(750));
    assert_eq!(next_after_check(false, 100), Next::Poll(0));
    assert_eq!(POLL_MS, 250);
}

#[test]
fn a_check_that_never_passes_ends_in_failure() {
    for timeout in [0u64, 1, 249, 250, 251, 20_000] {
        let mut left = timeout;
        let mut checks = 0u64;
        loop {
            checks += 1;
            match next_after_check(false, left) {
                Next::Poll(l) => left = l,
                Next::Fail => break,
                Next::Advance => unreachable!(),
            }
        }
        assert_eq!(checks, 1 + (timeout + POLL_MS - 1) / POLL_MS, "{timeout}");
    }
}
