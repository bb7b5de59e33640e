use oss_uploader::plan::{part_len, part_offset, plan, total_parts, PlanMode, BATCH_SIZE, MAX_WORKERS};

const MIB: u64 = 1024 * 1024;

#[test]
fn threshold_and_worker_bound() {
    assert_eq!(BATCH_SIZE, 10 * 1024 * 1024);
    assert_eq!(MAX_WORKERS, 10);
}

#[test]
fn file_of_25_mib_is_cut_into_three_parts() {
    assert_eq!(plan(25 * MIB, 10 * MIB), PlanMode::Chunked { total_parts: 3 });
    assert_eq!(part_len(25 * MIB, 10 * MIB, 1), 10 * MIB);
    assert_eq!(part_len(25 * MIB, 10 * MIB, 2), 10 * MIB);
    assert_eq!(part_len(25 * MIB, 10 * MIB, 3), 5 * MIB);
    assert_eq!(part_offset(25 * MIB, 10 * MIB, 1), 0);
    assert_eq!(part_offset(25 * MIB, 10 * MIB, 2), 10 * MIB);
    assert_eq!(part_offset(25 * MIB, 10 * MIB, 3), 20 * MIB);
}

#[test]
fn file_of_5_mib_goes_in_one_put() {
    assert_eq!(plan(5 * MIB, 10 * MIB), PlanMode::Single);
}

#[test]
fn file_of_exactly_one_part_goes_in_one_put() {
    assert_eq!(plan(BATCH_SIZE, BATCH_SIZE), PlanMode::Single);
    assert_eq!(plan(BATCH_SIZE + 1, BATCH_SIZE), PlanMode::Chunked { total_parts: 2 });
    assert_eq!(part_len(BATCH_SIZE + 1, BATCH_SIZE, 1), BATCH_SIZE);
    assert_eq!(part_len(BATCH_SIZE + 1, BATCH_SIZE, 2), 1);
}

#[test]
fn empty_file_goes_in_one_put_and_has_no_parts() {
    assert_eq!(plan(0, BATCH_SIZE), PlanMode::Single);
    assert_eq!(total_parts(0, BATCH_SIZE), 0);
    assert_eq!(part_len(0, BATCH_SIZE, 1), 0);
}

#[test]
fn part_count_is_the_quotient_rounded_up() {
    assert_eq!(total_parts(1, 10), 1);
    assert_eq!(total_parts(10, 10), 1);
    assert_eq!(total_parts(11, 10), 2);
    assert_eq!(total_parts(20, 10), 2);
    assert_eq!(total_parts(21, 10), 3);
    assert_eq!(total_parts(u64::MAX, 1), u64::MAX);
    assert_eq!(total_parts(u64::MAX, u64::MAX), 1);
    assert_eq!(total_parts(u64::MAX, 2), 1u64 << 63);
    assert_eq!(total_parts(u64::MAX, u64::MAX - 1), 2);
    assert_eq!(part_len(u64::MAX, u64::MAX - 1, 2), 1);
}

#[test]
fn part_len_is_zero_for_numbers_that_name_no_part() {
    assert_eq!(part_len(25, 10, 0), 0);
    assert_eq!(part_len(25, 10, 4), 0);
    assert_eq!(part_len(25, 10, u64::MAX), 0);
}

#[test]
fn last_part_of_a_file_that_divides_evenly_is_full() {
    assert_eq!(total_parts(30, 10), 3);
    assert_eq!(part_len(30, 10, 3), 10);
}

#[test]
fn plan_is_single_exactly_up_to_the_part_size() {
    for part_size in 1u64..=12 {
        for file_size in 0u64..=50 {
            let mode = plan(file_size, part_size);
            if file_size <= part_size {
                assert_eq!(mode, PlanMode::Single);
            } else {
                let expected = (file_size + part_size - 1) / part_size;
                assert_eq!(mode, PlanMode::Chunked { total_parts: expected });
                assert!(expected >= 2);
            }
        }
    }
}

#[test]
fn part_lengths_add_up_to_the_file_size() {
    for part_size in 1u64..=9 {
        for file_size in 0u64..=40 {
            let n = total_parts(file_size, part_size);
            let mut sum = 0u64;
            for number in 1..=n {
                let len = part_len(file_size, part_size, number);
                assert_eq!(part_offset(file_size, part_size, number), sum);
                if number < n {
                    assert_eq!(len, part_size);
                } else {
                    assert!(1 <= len && len <= part_size);
                }
                sum += len;
            }
            assert_eq!(sum, file_size);
        }
    }
}
