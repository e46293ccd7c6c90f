use lot::util::{Base64Error, DetailC, DigestUtil, MathUtil, NumberUtil, TimeUtil};

#[test]
fn md5_test() {
    assert!("900150983cd24fb0d6963f7d28e17f72" == DigestUtil::md5("abc"));
    assert!("a7bac2239fcdcb3a067903d8077c4a07" == DigestUtil::md5("中文"));
    assert!(4_i64 == MathUtil::get_a(4, 1));
    assert!(12_i64 == MathUtil::get_a(4, 2));
    assert!(6_i64 == MathUtil::get_c(4, 2));

    let vec = NumberUtil::to_int_array("01,02,13");
    assert_eq!(vec![1, 2, 13], vec);
    let rst = NumberUtil::array_sort_from_min_to_max(&vec);
    assert!(Result::Ok(1) == rst);

    let rst = NumberUtil::check_margin(&vec, 1, 12);
    assert!(Result::Err(-1) == rst);

    let vec = NumberUtil::to_int_array("10,12,01");
    assert_eq!(vec![10, 12, 1], vec);
    let rst = NumberUtil::array_sort_from_min_to_max(&vec);
    assert!(Result::Err(-1) == rst);

    let rst = NumberUtil::check_margin(&vec, 1, 12);
    assert!(Result::Ok(1) == rst);
}

#[test]
fn detailc_test() {
    let dc = MathUtil::get_detailc(8, 2);
    for i in 0..dc.data.len() {
        let set = dc.data.get(i).unwrap();
        println!("{:?}", set);
    }
}

#[test]
fn detailc_sets_are_the_choices() {
    let dc = MathUtil::get_detailc(4, 2);
    assert_eq!(
        dc.data,
        vec![vec![0, 1], vec![0, 2], vec![0, 3], vec![1, 2], vec![1, 3], vec![2, 3]]
    );
    let dc = MathUtil::get_detailc(3, 0);
    assert_eq!(dc.data, vec![Vec::<i64>::new()]);
    let dc = MathUtil::get_detailc(2, 3);
    assert!(dc.data.is_empty());
}

#[test]
fn detailc_count_matches_get_c() {
    for m in 0..9_i64 {
        for n in 0..9_i64 {
            let dc = MathUtil::get_detailc(m, n);
            assert_eq!(dc.data.len() as i64, MathUtil::get_c(m, n));
        }
    }
}

#[test]
fn detailc_put_appends() {
    let mut dc = DetailC::new();
    assert!(dc.data.is_empty());
    dc.put(vec![3, 5]);
    dc.put(vec![1]);
    assert_eq!(dc.data, vec![vec![3, 5], vec![1]]);
}

#[test]
fn detailc_record_fills_from_a_prefix() {
    let mut dc = DetailC::new();
    let mut data = vec![1_i64, 0];
    MathUtil::get_detailc_record(&mut dc, &mut data, 4, 1, 1);
    assert_eq!(dc.data, vec![vec![1, 2], vec![1, 3]]);

    let mut dc = DetailC::new();
    let mut data = vec![1_i64, 0, 9];
    MathUtil::get_detailc_record(&mut dc, &mut data, 4, 1, 1);
    assert_eq!(dc.data, vec![vec![1, 2, 9], vec![1, 3, 9]]);

    let mut dc = DetailC::new();
    let mut data = vec![3_i64];
    MathUtil::get_detailc_record(&mut dc, &mut data, 4, 2, 1);
    assert!(dc.data.is_empty());
    assert_eq!(data, vec![3]);

    let mut dc = DetailC::new();
    let mut data = vec![5_i64];
    MathUtil::get_detailc_record(&mut dc, &mut data, 4, 0, 3);
    assert_eq!(dc.data, vec![vec![5]]);
}

#[test]
fn arrangements_and_choices() {
    assert_eq!(MathUtil::get_a(5, 0), 1);
    assert_eq!(MathUtil::get_a(5, 3), 60);
    assert_eq!(MathUtil::get_a(35, 5), 35 * 34 * 33 * 32 * 31);
    assert_eq!(MathUtil::get_c(35, 5), 324632);
    assert_eq!(MathUtil::get_c(12, 2), 66);
    assert_eq!(MathUtil::get_c(2, 3), 0);
    assert_eq!(MathUtil::get_c(4, -1), 0);
    assert_eq!(MathUtil::get_c(0, 0), 1);
}

#[test]
fn hit_count_counts_equal_pairs() {
    assert_eq!(MathUtil::get_hit_count(&[1, 2, 3, 4, 5], &[3, 4, 5, 9, 10]), 3);
    assert_eq!(MathUtil::get_hit_count(&[3, 4, 5, 9, 10], &[1, 2, 3, 4, 5]), 3);
    assert_eq!(MathUtil::get_hit_count(&[1, 1], &[1]), 2);
    assert_eq!(MathUtil::get_hit_count(&[1], &[1, 1]), 2);
    assert_eq!(MathUtil::get_hit_count(&[], &[1, 2]), 0);
}

#[test]
fn number_lists_split_at_comma_and_bar() {
    assert_eq!(NumberUtil::to_int_array("01,02|13"), vec![1, 2, 13]);
    assert_eq!(NumberUtil::to_int_array("-3"), vec![-3]);
    assert_eq!(NumberUtil::to_int_array("+7|8"), vec![7, 8]);
    assert_eq!(NumberUtil::ints_of_chars(&['1', '|', '2', ',', '3']), vec![1, 2, 3]);
}

#[test]
fn sort_and_margin_checks() {
    assert_eq!(NumberUtil::array_sort_from_min_to_max(&vec![]), Ok(1));
    assert_eq!(NumberUtil::array_sort_from_min_to_max(&vec![5]), Ok(1));
    assert_eq!(NumberUtil::array_sort_from_min_to_max(&vec![1, 1]), Err(-1));
    assert_eq!(NumberUtil::check_margin(&vec![], 1, 12), Err(-1));
    assert_eq!(NumberUtil::check_margin(&vec![0, 5], 1, 12), Err(-1));
    assert_eq!(NumberUtil::check_margin(&vec![1, 12], 1, 12), Ok(1));
}

#[test]
fn keys_and_base64() {
    assert_eq!(DigestUtil::empty_key(), "AAAAAAAAAAAAAAAAAAAAAAAAAAAAAAAA");
    let key = DigestUtil::random_key();
    assert_eq!(key.len(), 32);
    assert!(key.chars().all(|c| c.is_ascii_hexdigit() && !c.is_ascii_uppercase()));
    assert_eq!(DigestUtil::base64_to_bytes("aGVsbG8="), Ok(b"hello".to_vec()));
    assert_eq!(DigestUtil::base64_to_bytes("a"), Err(Base64Error::InvalidBase64Length));
    assert!(matches!(DigestUtil::base64_to_bytes("a*=="), Err(Base64Error::InvalidBase64Byte(b'*', 1))));
    assert!(TimeUtil::get_cur_second() > 1_400_000_000);
}

#[test]
fn hit_categories_cover_all_bets() {
    // A zone of 8 numbers with 3 hits: the 5-number bets split by hit count.
    let (tl, th) = (8_i64, 3_i64);
    let mut total = 0;
    for need in 0..=5_i64 {
        total += MathUtil::get_c(th, need) * MathUtil::get_c(tl - th, 5 - need);
    }
    assert_eq!(total, MathUtil::get_c(tl, 5));
    // One fixed number, hit, and seven free numbers with two hits.
    let mut total = 0;
    for need in 0..=5_i64 {
        total += MathUtil::get_c(2, need - 1) * MathUtil::get_c(7 - 2, 5 - (need - 1) - 1);
    }
    assert_eq!(total, MathUtil::get_c(7, 4));
}

#[test]
fn expanded_bets_by_hits() {
    let nums = [3, 7, 11, 15, 19, 23, 27];
    let draw = [3, 11, 19, 30, 35];
    let h = MathUtil::get_hit_count(&nums, &draw) as i64;
    assert_eq!(h, 3);
    let dc = MathUtil::get_detailc(nums.len() as i64, 5);
    for j in 0..=5i64 {
        let mut found = 0i64;
        for set in &dc.data {
            let bet: Vec<i32> = set.iter().map(|&k| nums[k as usize]).collect();
            if MathUtil::get_hit_count(&bet, &draw) as i64 == j {
                found += 1;
            }
        }
        assert_eq!(found, MathUtil::get_c(h, j) * MathUtil::get_c(nums.len() as i64 - h, 5 - j));
    }
    assert_eq!(MathUtil::get_c(3, 3) * MathUtil::get_c(4, 2), 6);
}
