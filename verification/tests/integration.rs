//! End-to-end programs, including runs above the parallel threshold.
use tin::apply::apply_bin;
use tin::arith::BinOp;
use tin::interpreter::TinInterpreter;
use tin::value::TinValue;

fn add(a: &TinValue, b: &TinValue) -> TinValue {
    apply_bin(BinOp::Add, a, b).unwrap()
}

fn sub(a: &TinValue, b: &TinValue) -> TinValue {
    apply_bin(BinOp::Sub, a, b).unwrap()
}

fn mul(a: &TinValue, b: &TinValue) -> TinValue {
    apply_bin(BinOp::Mul, a, b).unwrap()
}

fn div(a: &TinValue, b: &TinValue) -> TinValue {
    apply_bin(BinOp::Div, a, b).unwrap()
}

fn lt(a: &TinValue, b: &TinValue) -> TinValue {
    apply_bin(BinOp::Lt, a, b).unwrap()
}

fn generate_vector(length: i64, max_size: i64) -> TinValue {
    TinValue::Vector(
        (0..length).map(|_| TinValue::Int(rand::random_range(0..max_size))).collect(),
    )
}

#[test]
fn parallelism_check() {
    let intrp = TinInterpreter::new();
    let msg = format!(
        "Parallelism: {} (system with {} physical cores)",
        intrp.get_parallelization(),
        intrp.policy.cores
    );
    println!("\n+{}+", "-".repeat(msg.len() + 2));
    println!("| {} |", msg);
    println!("+{}+\n", "-".repeat(msg.len() + 2));
}

#[test]
fn integration_tests_naive_primality_test() {
    fn result(n: i64) -> i64 {
        for i in 2..n {
            if n % i == 0 {
                return 0;
            }
        }
        (n > 1) as i64
    }
    let mut intrp = TinInterpreter::new();
    let code = "\u{2192}n.n\u{221a}\u{22b3}\u{3b9}``.n%\u{2200}1.n>\u{2227}\u{2190}n";
    let program = intrp.parse(code).unwrap();
    for i in (0..1000).chain(10000..10100) {
        let mut stack = vec![TinValue::Int(i)];
        intrp.execute(&program, Option::None, &mut stack).unwrap();
        let correct_res = TinValue::Int(result(i));
        if *stack.last().unwrap() != correct_res {
            panic!(
                "Invalid output for input {}: {} != {}",
                i,
                stack.last().unwrap().to_string(),
                correct_res.to_string()
            );
        }
    }
}

#[test]
fn integration_tests_divisor_count() {
    fn result(n: i64) -> i64 {
        let mut res = 0;
        for i in 0..n {
            res += (n % (i + 1) == 0) as i64;
        }
        res
    }
    let mut intrp = TinInterpreter::new();
    let code = "!\u{3b9}\u{22b3}\u{21b6}%\u{1d539}\u{ac}\u{2211}";
    let program = intrp.parse(code).unwrap();
    for i in (0..1000).chain(10000..10100) {
        let mut stack = vec![TinValue::Int(i)];
        intrp.execute(&program, Option::None, &mut stack).unwrap();
        let correct_res = TinValue::Int(result(i));
        if *stack.last().unwrap() != correct_res {
            panic!(
                "Invalid output for input {}: {} != {}",
                i,
                stack.last().unwrap().to_string(),
                correct_res.to_string()
            );
        }
    }
}

#[test]
fn integration_tests_iterative_factorial() {
    fn result(n: i64) -> i64 {
        match n {
            0 => 1,
            n => n * result(n - 1),
        }
    }
    let mut intrp = TinInterpreter::new();
    let code = "\u{3b9}\u{22b3}\u{220f}";
    let program = intrp.parse(code).unwrap();
    for i in 0..20 {
        let mut stack = vec![TinValue::Int(i)];
        intrp.execute(&program, Option::None, &mut stack).unwrap();
        let correct_res = TinValue::Int(result(i));
        assert_eq!(
            *stack.last().unwrap(),
            correct_res,
            "Invalid output for input {}: {} != {}",
            i,
            stack.last().unwrap().to_string(),
            correct_res.to_string()
        );
    }
}

#[test]
fn e_approximation() {
    fn result(m: i64) -> f64 {
        fn fact(n: i64) -> i64 {
            match n {
                0 => 1,
                n => n * fact(n - 1),
            }
        }
        (0..m).map(|i| 1 as f64 / fact(i) as f64).sum()
    }
    let mut intrp = TinInterpreter::new();
    let code = "|\u{3b9}\u{22b3}\u{220f}|\u{2192}|F| \u{3b9}[F1.0/]\u{2211}";
    let program = intrp.parse(code).unwrap();
    for i in 2..20 {
        let mut stack = vec![TinValue::Int(i)];
        intrp.execute(&program, Option::None, &mut stack).unwrap();
        let correct_res = result(i);
        match stack.last().unwrap() {
            TinValue::Float(a) => {
                let a = f64::from_bits(*a);
                assert!(
                    (a - correct_res).abs() < 0.001,
                    "Invalid output for input {}: {} != {}",
                    i,
                    a,
                    correct_res
                );
            },
            _ => unreachable!(),
        }
    }
}

#[test]
fn integration_tests_recursive_factorial() {
    fn result(n: i64) -> i64 {
        match n {
            0 => 1,
            n => n * result(n - 1),
        }
    }
    let mut intrp = TinInterpreter::new();
    let code = "\u{25ca}\u{27e8}!!\u{22b2}\u{2207}\u{b7}\u{2192}n\u{27e9}:\u{27e8}1\u{2192}n\u{27e9}.n\u{2190}n";
    let program = intrp.parse(code).unwrap();
    for i in 0..20 {
        let mut stack = vec![TinValue::Int(i)];
        intrp.execute(&program, Option::None, &mut stack).unwrap();
        let correct_res = TinValue::Int(result(i));
        assert_eq!(
            *stack.last().unwrap(),
            correct_res,
            "Invalid output for input {}: {} != {}",
            i,
            stack.last().unwrap().to_string(),
            correct_res.to_string()
        );
    }
}

#[test]
fn integration_tests_recursive_fibonacci() {
    fn result(n: i64) -> i64 {
        let mut its = [0, 1];
        if n < 2 {
            return n;
        }
        for _ in 1..n {
            its = [its[1], its[0] + its[1]];
        }
        its[1]
    }
    let mut intrp = TinInterpreter::new();
    let code = "!1<?\u{27e8}\u{22b2}!\u{22b2}\u{2207}\u{21b6}\u{2207}+\u{27e9}";
    let program = intrp.parse(code).unwrap();
    for i in 0..20 {
        let mut stack = vec![TinValue::Int(i)];
        intrp.execute(&program, Option::None, &mut stack).unwrap();
        let correct_res = TinValue::Int(result(i));
        assert_eq!(
            *stack.last().unwrap(),
            correct_res,
            "Invalid output for input {}: {} != {}",
            i,
            stack.last().unwrap().to_string(),
            correct_res.to_string()
        );
    }
}

#[test]
fn integration_tests_iterative_fibonacci() {
    fn result(n: i64) -> i64 {
        let mut its = [0, 1];
        if n < 2 {
            return n;
        }
        for _ in 1..n {
            its = [its[1], its[0] + its[1]];
        }
        its[1]
    }
    let mut intrp = TinInterpreter::new();
    let code = "!!\u{2192}n1<?\u{27e8}2\u{3b9}\u{2192}r \u{22b2}\u{3b9}{(.r1\u{2193} .r\u{2211})\u{2192}.r}.r1\u{2193}\u{2192}.n\u{27e9}.n\u{2190}r\u{2190}n";
    let program = intrp.parse(code).unwrap();
    for i in 0..45 {
        let mut stack = vec![TinValue::Int(i)];
        intrp.execute(&program, Option::None, &mut stack).unwrap();
        let correct_res = TinValue::Int(result(i));
        assert_eq!(
            *stack.last().unwrap(),
            correct_res,
            "Invalid output for input {}: {} != {}",
            i,
            stack.last().unwrap().to_string(),
            correct_res.to_string()
        );
    }
}

#[test]
fn integration_tests_binet_fibonacci() {
    fn result(n: i64) -> i64 {
        let mut its = [0, 1];
        if n < 2 {
            return n;
        }
        for _ in 1..n {
            its = [its[1], its[0] + its[1]];
        }
        its[1]
    }
    let mut intrp = TinInterpreter::new();
    let code = "2 5\u{221a}\u{22b3}/^5\u{221a}\u{21b6}/.5+\u{230b}";
    let program = intrp.parse(code).unwrap();
    for i in 0..45 {
        let mut stack = vec![TinValue::Int(i)];
        intrp.execute(&program, Option::None, &mut stack).unwrap();
        let correct_res = TinValue::Int(result(i));
        assert_eq!(
            *stack.last().unwrap(),
            correct_res,
            "Invalid output for input {}: {} != {}",
            i,
            stack.last().unwrap().to_string(),
            correct_res.to_string()
        );
    }
}

#[test]
fn integration_tests_mean() {
    fn result(v: Vec<TinValue>) -> TinValue {
        let mut res = TinValue::Int(0);
        let count = TinValue::Int(v.len() as i64);
        for i in v {
            res = add(&res, &i);
        }
        div(&res, &count)
    }
    let mut intrp = TinInterpreter::new();
    let code = "!\u{2374}\u{21b6}\u{2211}/";
    let program = intrp.parse(code).unwrap();
    for _ in (0..100).chain(10000..10100) {
        let mut v = vec![];
        for _ in 0..100 {
            v.push(TinValue::Int(rand::random_range(0..10)));
        }
        let mut stack = vec![TinValue::Vector(v.clone())];
        intrp.execute(&program, Option::None, &mut stack).unwrap();
        let correct_res = result(v.clone());
        assert_eq!(
            *stack.last().unwrap(),
            correct_res,
            "Invalid output for input {}: {} != {}",
            TinValue::Vector(v).to_string(),
            stack.last().unwrap().to_string(),
            correct_res.to_string()
        );
    }
}

#[test]
fn integration_tests_variance() {
    fn result(v: Vec<TinValue>) -> TinValue {
        let mut res = TinValue::Int(0);
        let count = TinValue::Int(v.len() as i64);
        for i in &v {
            res = add(&res, i);
        }
        let mean = div(&res, &count);
        res = TinValue::Int(0);
        for i in &v {
            let mut factor = sub(i, &mean);
            factor = mul(&factor, &factor);
            res = add(&res, &factor);
        }
        div(&res, &count)
    }
    let mut intrp = TinInterpreter::new();
    let code = "!!!\u{2374}\u{21b6}\u{2211}/-2\u{21b6}^\u{2211}\u{21b6}\u{2374}\u{21b6}/";
    let program = intrp.parse(code).unwrap();
    for _ in 0..100 {
        let mut v = vec![];
        for _ in (0..100).chain(10000..10100) {
            v.push(TinValue::Int(rand::random_range(0..10)));
        }
        let mut stack = vec![TinValue::Vector(v.clone())];
        intrp.execute(&program, Option::None, &mut stack).unwrap();
        let correct_res = result(v.clone());
        assert_eq!(
            *stack.last().unwrap(),
            correct_res,
            "Invalid output for input {}: {} != {}",
            TinValue::Vector(v).to_string(),
            stack.last().unwrap().to_string(),
            correct_res.to_string()
        );
    }
}

#[test]
fn integration_tests_mode() {
    fn result(v: Vec<TinValue>) -> TinValue {
        let mut counts = std::collections::HashMap::new();
        for i in &v {
            if let TinValue::Int(j) = i {
                counts.entry(j).or_insert(0);
                *counts.get_mut(&j).unwrap() += 1;
            }
        }
        let max_count = *counts.iter().max_by_key(|t| t.1).unwrap().1;
        for i in &v {
            if let TinValue::Int(j) = i {
                if *counts.get(&j).unwrap() == max_count {
                    return i.clone();
                }
            }
        }
        TinValue::Int(0)
    }
    let mut intrp = TinInterpreter::new();
    let code = "\u{2192}n(.n{.n\u{21b6}#})!\u{2308}\u{ba}0\u{2193}.n\u{21b6}\u{2193}\u{2190}n";
    let program = intrp.parse(code).unwrap();
    for _ in 0..100 {
        let mut v = vec![];
        for _ in (0..100).chain(10000..10010) {
            v.push(TinValue::Int(rand::random_range(0..10)));
        }
        let mut stack = vec![TinValue::Vector(v.clone())];
        intrp.execute(&program, Option::None, &mut stack).unwrap();
        let correct_res = result(v.clone());
        assert_eq!(
            *stack.last().unwrap(),
            correct_res,
            "Invalid output for input {}: {} != {}",
            TinValue::Vector(v).to_string(),
            stack.last().unwrap().to_string(),
            correct_res.to_string()
        );
    }
}

#[test]
fn integration_tests_zero_vector_generation() {
    fn result(n: i64) -> TinValue {
        TinValue::Vector(vec![TinValue::Int(0); n as usize])
    }
    let mut intrp = TinInterpreter::new();
    let code = "(\u{22b3}\u{3b9}{\u{a1}0})";
    let program = intrp.parse(code).unwrap();
    for i in 1..20 {
        let mut stack = vec![TinValue::Int(i)];
        intrp.execute(&program, Option::None, &mut stack).unwrap();
        let correct_res = result(i);
        assert_eq!(
            *stack.last().unwrap(),
            correct_res,
            "Invalid output for input {}: {} != {}",
            i,
            stack.last().unwrap().to_string(),
            correct_res.to_string()
        );
    }
}

#[test]
fn integration_tests_min_in_matrix() {
    fn result(v: Vec<TinValue>) -> TinValue {
        let mut res: Option<TinValue> = Option::None;
        for i in v {
            if let TinValue::Vector(vv) = i {
                for j in vv {
                    if res.is_none() {
                        res = Some(j);
                    } else if let TinValue::Int(1) = lt(&j, res.as_ref().unwrap()) {
                        res = Some(j);
                    }
                }
            }
        }
        res.unwrap()
    }
    let mut intrp = TinInterpreter::new();
    let code = "[{}]\u{230a}";
    let program = intrp.parse(code).unwrap();
    for i in 1..110 {
        let two = TinValue::Int(2);
        let mut v = vec![];
        for _ in 0..i {
            let mut row = vec![];
            for _ in 0..i {
                let elem = TinValue::Int(rand::random_range(0..1000000));
                row.push(div(&elem, &two));
            }
            v.push(TinValue::Vector(row));
        }
        let mut stack = vec![TinValue::Vector(v.clone())];
        println!("{}", stack.last().unwrap().to_string());
        intrp.execute(&program, Option::None, &mut stack).unwrap();
        let correct_res = result(v);
        assert_eq!(
            *stack.last().unwrap(),
            correct_res,
            "Invalid output for input {}: {} != {}",
            i,
            stack.last().unwrap().to_string(),
            correct_res.to_string()
        );
    }
}

#[test]
fn integration_tests_identity_matrix() {
    fn result(n: i64) -> TinValue {
        let mut v = vec![];
        for i in 0..n {
            let mut row = vec![TinValue::Int(0); n as usize];
            row[i as usize] = TinValue::Int(1);
            v.push(TinValue::Vector(row));
        }
        TinValue::Vector(v)
    }
    let mut intrp = TinInterpreter::new();
    let code = "\u{2192}n(.n\u{3b9}{.n\u{3b9}!-\u{21b6}1\u{21b6}\u{2191}})\u{2190}n";
    let program = intrp.parse(code).unwrap();
    for i in 1..20 {
        let mut stack = vec![TinValue::Int(i)];
        intrp.execute(&program, Option::None, &mut stack).unwrap();
        let correct_res = result(i);
        assert_eq!(
            *stack.last().unwrap(),
            correct_res,
            "Invalid output for input {}: {} != {}",
            i,
            stack.last().unwrap().to_string(),
            correct_res.to_string()
        );
    }
}

#[test]
fn collatz_conjecture() {
    let mut intrp = TinInterpreter::new();
    let code = "\u{2192}.n .n2\u{21b6}%\u{25ca}\u{27e8}3.n\u{b7}\u{22b3}\u{2192}.n\u{27e9}:\u{27e8}2.n/\u{2192}.n\u{27e9} .n1<?\u{27e8}.n\u{2207}\u{27e9} \u{2190}n";
    let program = intrp.parse(code).unwrap();
    for i in 1..100 {
        let mut stack = vec![TinValue::Int(i)];
        intrp.execute(&program, Option::None, &mut stack).unwrap();
    }
}

#[test]
fn all() {
    let mut intrp = TinInterpreter::new();
    let codes: Vec<_> = vec![
        "\u{2200}",
        "1\u{21b6}\u{1d539}{\u{2227}}",
        "\u{1d539}!\u{2211}\u{21b6}\u{2374}-\u{ac}",
        "1\u{2192}r \u{1d539}{.r\u{2227}\u{2192}.r}.r \u{2190}r",
    ]
    .iter()
    .map(|i| intrp.parse(i))
    .collect();
    let gen = |i, l, s| (0..i).map(move |_| generate_vector(l, s));
    for test_data in gen(1000, 10, 10).chain(gen(25, 10100, 10000)) {
        let mut results = vec![];
        for code in &codes {
            let mut stack = vec![test_data.clone()];
            intrp.execute(code.as_ref().unwrap(), Option::None, &mut stack).unwrap();
            results.push(stack.pop().unwrap());
        }
        assert!(
            results.windows(2).all(|w| w[0] == w[1]),
            "equality failed for input {}: {:?}",
            test_data.to_string(),
            results
        )
    }
}

#[test]
fn some() {
    let mut intrp = TinInterpreter::new();
    let codes: Vec<_> = vec![
        "\u{2203}",
        "\u{1d539}\u{2211}0<",
        "0\u{21b6}\u{1d539}{\u{2228}}",
    ]
    .iter()
    .map(|i| intrp.parse(i))
    .collect();
    let gen = |i, l, s| (0..i).map(move |_| generate_vector(l, s));
    for test_data in gen(1000, 5, 2).chain(gen(25, 10100, 2)) {
        let mut results = vec![];
        for code in &codes {
            let mut stack = vec![test_data.clone()];
            intrp.execute(code.as_ref().unwrap(), Option::None, &mut stack).unwrap();
            results.push(stack.pop().unwrap());
        }
        assert!(
            results.windows(2).all(|w| w[0] == w[1]),
            "equality failed for input {}: {:?}",
            test_data.to_string(),
            results
        )
    }
}

#[test]
fn none() {
    let mut intrp = TinInterpreter::new();
    let codes: Vec<_> = vec![
        "\u{2204}",
        "\u{2203}\u{ac}",
        "\u{1d539}\u{2211}\u{ac}",
        "0\u{21b6}\u{1d539}{\u{2228}}\u{ac}",
    ]
    .iter()
    .map(|i| intrp.parse(i))
    .collect();
    let gen = |i, l, s| (0..i).map(move |_| generate_vector(l, s));
    for test_data in gen(1000, 5, 2).chain(gen(25, 10100, 2)) {
        let mut results = vec![];
        for code in &codes {
            let mut stack = vec![test_data.clone()];
            intrp.execute(code.as_ref().unwrap(), Option::None, &mut stack).unwrap();
            results.push(stack.pop().unwrap());
        }
        assert!(
            results.windows(2).all(|w| w[0] == w[1]),
            "equality failed for input {}: {:?}",
            test_data.to_string(),
            results
        )
    }
}

#[test]
fn from_index() {
    let mut intrp = TinInterpreter::new();
    let codes: Vec<_> = vec![
        "@",
        "[*\u{2193}]\u{21b6}\u{a1}",
        "\u{2192}i\u{2192}v (.i{.v\u{21b6}\u{2193}}) \u{2190}i\u{2190}v",
    ]
    .iter()
    .map(|i| intrp.parse(i))
    .collect();
    let gen = || (0..1000).map(|_| generate_vector(10, 10));
    for test_data in gen().zip(gen()) {
        let mut results = vec![];
        for code in &codes {
            let mut stack = vec![test_data.0.clone(), test_data.1.clone()];
            intrp.execute(code.as_ref().unwrap(), Option::None, &mut stack).unwrap();
            results.push(stack.pop().unwrap());
        }
        assert!(
            results.windows(2).all(|w| w[0] == w[1]),
            "equality failed for inputs {} {}: {:?}",
            test_data.0.to_string(),
            test_data.1.to_string(),
            results
        )
    }
}

#[test]
fn sort_asc() {
    let mut intrp = TinInterpreter::new();
    let codes: Vec<_> = vec!["\u{21d1}", "!.\u{21d1}@"].iter().map(|i| intrp.parse(i)).collect();
    let gen = |i, l, s| (0..i).map(move |_| generate_vector(l, s));
    for test_data in gen(1000, 100, 1000).chain(gen(25, 10100, 10000)) {
        let mut results = vec![];
        for code in &codes {
            let mut stack = vec![test_data.clone()];
            intrp.execute(code.as_ref().unwrap(), Option::None, &mut stack).unwrap();
            results.push(stack.pop().unwrap());
        }
        assert!(
            results.windows(2).all(|w| w[0] == w[1]),
            "equality failed for input {}: {:?}",
            test_data.to_string(),
            results
        )
    }
}

#[test]
fn sort_desc() {
    let mut intrp = TinInterpreter::new();
    let codes: Vec<_> = vec!["\u{21d3}", "!.\u{21d3}@"].iter().map(|i| intrp.parse(i)).collect();
    let gen = |i, l, s| (0..i).map(move |_| generate_vector(l, s));
    for test_data in gen(1000, 100, 1000).chain(gen(25, 10100, 10000)) {
        let mut results = vec![];
        for code in &codes {
            let mut stack = vec![test_data.clone()];
            intrp.execute(code.as_ref().unwrap(), Option::None, &mut stack).unwrap();
            results.push(stack.pop().unwrap());
        }
        assert!(
            results.windows(2).all(|w| w[0] == w[1]),
            "equality failed for input {}: {:?}",
            test_data.to_string(),
            results
        )
    }
}

#[test]
fn counts() {
    let mut intrp = TinInterpreter::new();
    let codes: Vec<_> = vec![
        "\u{2282}",
        "![*#]\u{21b6}\u{a1}",
        "!\u{2192}n[.n\u{21b6}#]\u{2190}n",
        "\u{2192}n(.n{.n\u{21b6}#})\u{2190}n",
    ]
    .iter()
    .map(|i| intrp.parse(i))
    .collect();
    let gen = |i, l, s| (0..i).map(move |_| generate_vector(l, s));
    for test_data in gen(1000, 100, 10) {
        let mut results = vec![];
        for code in &codes {
            let mut stack = vec![test_data.clone()];
            intrp.execute(code.as_ref().unwrap(), Option::None, &mut stack).unwrap();
            results.push(stack.pop().unwrap());
        }
        assert!(
            results.windows(2).all(|w| w[0] == w[1]),
            "equality failed for input {}: {:?}",
            test_data.to_string(),
            results
        )
    }
}

#[test]
fn merge() {
    let mut intrp = TinInterpreter::new();
    let codes: Vec<_> = vec!["_", "{,}"].iter().map(|i| intrp.parse(i)).collect();
    let gen = |i, l, s| (0..i).map(move |_| generate_vector(l, s));
    for test_data in gen(1000, 100, 1000).zip(gen(1000, 100, 1000)) {
        let mut results = vec![];
        for code in &codes {
            let mut stack = vec![test_data.0.clone(), test_data.1.clone()];
            intrp.execute(code.as_ref().unwrap(), Option::None, &mut stack).unwrap();
            results.push(stack.pop().unwrap());
        }
        assert!(
            results.windows(2).all(|w| w[0] == w[1]),
            "equality failed for inputs {} {}: {:?}",
            test_data.0.to_string(),
            test_data.1.to_string(),
            results
        )
    }
}
