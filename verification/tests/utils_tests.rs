use multilinear_sumcheck::bits::{checked_hypercube_size, hypercube_size};
use multilinear_sumcheck::utils::{concat_points, convert_to_binary};

#[test]
fn test_domain() {
    // g(x1,...,xv) = x1*x2 + 4*x1 + 3*x2 + ... + xv
    // var_num: v
    // domain: [[0; v], ..., [0, 1,..., 0], ..., [1; v]]
    let var_num: Vec<usize> = vec![2, 3, 4];

    for num in var_num.iter() {
        let max_num: usize = 1 << num;
        let domain = (0..max_num)
            .into_iter()
            .map(|n| convert_to_binary(&num, n))
            .collect::<Vec<_>>();
        assert_eq!(domain.len(), max_num);
        println!("num: {:?}", num);
        println!("domain: size:{:?},  {:?}", domain.len(), domain);
    }
}

#[test]
fn convert_to_binary_is_most_significant_first() {
    assert_eq!(convert_to_binary(&3, 3), vec![0, 1, 1]);
    assert_eq!(convert_to_binary(&4, 11), vec![1, 0, 1, 1]);
    assert_eq!(convert_to_binary(&4, 8), vec![1, 0, 0, 0]);
    assert_eq!(convert_to_binary(&1, 1), vec![1]);
    assert_eq!(convert_to_binary(&0, 0), Vec::<usize>::new());
}

#[test]
fn convert_to_binary_keeps_the_low_bits() {
    // 13 = 0b1101 does not fit in three bits: the low three are 101.
    assert_eq!(convert_to_binary(&3, 13), vec![1, 0, 1]);
}

#[test]
fn hypercube_size_is_a_power_of_two() {
    assert_eq!(hypercube_size(0), 1);
    assert_eq!(hypercube_size(1), 2);
    assert_eq!(hypercube_size(10), 1024);
    assert_eq!(checked_hypercube_size(0), Some(1));
    assert_eq!(checked_hypercube_size(6), Some(64));
    assert_eq!(checked_hypercube_size((usize::BITS - 1) as usize), Some(1usize << (usize::BITS - 1)));
    assert_eq!(checked_hypercube_size(usize::BITS as usize), None);
    assert_eq!(checked_hypercube_size(usize::MAX), None);
}

#[test]
fn concat_points_appends() {
    assert_eq!(concat_points(&vec![1, 2], &vec![3]), vec![1, 2, 3]);
    assert_eq!(concat_points(&vec![], &vec![3]), vec![3]);
    assert_eq!(concat_points(&vec![1], &vec![]), vec![1]);
}
