//! Whole programs run against reference computations.
use tin::apply::apply_bin;
use tin::arith::BinOp;
use tin::interpreter::TinInterpreter;
use tin::value::TinValue;

fn add(a: &TinValue, b: &TinValue) -> TinValue {
    apply_bin(BinOp::Add, a, b).unwrap()
}

fn sub(a: &TinValue, b: &TinValue) -> TinValue {
    apply_bin(BinOp::Sub, a, b).unwrap()
}

fn mul(a: &TinValue, b: &TinValue) -> TinValue {
    apply_bin(BinOp::Mul, a, b).unwrap()
}

fn div(a: &TinValue, b: &TinValue) -> TinValue {
    apply_bin(BinOp::Div, a, b).unwrap()
}

fn lt(a: &TinValue, b: &TinValue) -> TinValue {
    apply_bin(BinOp::Lt, a, b).unwrap()
}

#[test]
fn tests_naive_primality_test() {
    fn result(n: i64) -> i64 {
        for i in 2..n {
            if n % i == 0 {
                return 0;
            }
        }
        (n > 1) as i64
    }
    let mut intrp = TinInterpreter::new();
    let code = "\u{2192}n(.n\u{3b9}``.n%\u{2200}1.n>)\u{2200}\u{2190}n";
    let program = intrp.parse(code).unwrap();
    for i in 0..1000 {
        let mut stack = vec![TinValue::Int(i)];
        intrp.execute(&program, Option::None, &mut stack).unwrap();
        let correct_res = TinValue::Int(result(i));
        if *stack.last().unwrap() != correct_res {
            panic!(
                "Invalid output for input {}: {} != {}",
                i,
                stack.last().unwrap().to_string(),
                correct_res.to_string()
            );
        }
    }
}

#[test]
fn tests_divisor_count() {
    fn result(n: i64) -> i64 {
        let mut res = 0;
        for i in 0..n {
            res += (n % (i + 1) == 0) as i64;
        }
        res
    }
    let mut intrp = TinInterpreter::new();
    let code = "!\u{3b9}\u{22b3}\u{21b6}%\u{1d539}\u{ac}\u{2211}";
    let program = intrp.parse(code).unwrap();
    for i in 0..100 {
        let mut stack = vec![TinValue::Int(i)];
        intrp.execute(&program, Option::None, &mut stack).unwrap();
        let correct_res = TinValue::Int(result(i));
        if *stack.last().unwrap() != correct_res {
            panic!(
                "Invalid output for input {}: {} != {}",
                i,
                stack.last().unwrap().to_string(),
                correct_res.to_string()
            );
        }
    }
}

#[test]
fn tests_iterative_factorial() {
    fn result(n: i64) -> i64 {
        match n {
            0 => 1,
            n => n * result(n - 1),
        }
    }
    let mut intrp = TinInterpreter::new();
    let code = "\u{3b9}\u{22b3}\u{220f}";
    let program = intrp.parse(code).unwrap();
    for i in 0..20 {
        let mut stack = vec![TinValue::Int(i)];
        intrp.execute(&program, Option::None, &mut stack).unwrap();
        let correct_res = TinValue::Int(result(i));
        assert_eq!(
            *stack.last().unwrap(),
            correct_res,
            "Invalid output for input {}: {} != {}",
            i,
            stack.last().unwrap().to_string(),
            correct_res.to_string()
        );
    }
}

#[test]
fn tests_recursive_factorial() {
    fn result(n: i64) -> i64 {
        match n {
            0 => 1,
            n => n * result(n - 1),
        }
    }
    let mut intrp = TinInterpreter::new();
    let code = "\u{25ca}\u{27e8}!!\u{22b2}\u{2207}\u{b7}\u{2192}n\u{27e9}:\u{27e8}1\u{2192}n\u{27e9}.n\u{2190}n";
    let program = intrp.parse(code).unwrap();
    for i in 0..20 {
        let mut stack = vec![TinValue::Int(i)];
        intrp.execute(&program, Option::None, &mut stack).unwrap();
        let correct_res = TinValue::Int(result(i));
        assert_eq!(
            *stack.last().unwrap(),
            correct_res,
            "Invalid output for input {}: {} != {}",
            i,
            stack.last().unwrap().to_string(),
            correct_res.to_string()
        );
    }
}

#[test]
fn tests_recursive_fibonacci() {
    fn result(n: i64) -> i64 {
        let mut its = [0, 1];
        if n < 2 {
            return n;
        }
        for _ in 1..n {
            its = [its[1], its[0] + its[1]];
        }
        its[1]
    }
    let mut intrp = TinInterpreter::new();
    let code = "!1<?\u{27e8}\u{22b2}!\u{22b2}\u{2207}\u{21b6}\u{2207}+\u{27e9}";
    let program = intrp.parse(code).unwrap();
    for i in 0..20 {
        let mut stack = vec![TinValue::Int(i)];
        intrp.execute(&program, Option::None, &mut stack).unwrap();
        let correct_res = TinValue::Int(result(i));
        assert_eq!(
            *stack.last().unwrap(),
            correct_res,
            "Invalid output for input {}: {} != {}",
            i,
            stack.last().unwrap().to_string(),
            correct_res.to_string()
        );
    }
}

#[test]
fn tests_iterative_fibonacci() {
    fn result(n: i64) -> i64 {
        let mut its = [0, 1];
        if n < 2 {
            return n;
        }
        for _ in 1..n {
            its = [its[1], its[0] + its[1]];
        }
        its[1]
    }
    let mut intrp = TinInterpreter::new();
    let code = "!!\u{2192}n1<?\u{27e8}2\u{3b9}\u{2192}r \u{22b2}\u{3b9}{(.r1\u{2193} .r\u{2211})\u{2192}.r}.r1\u{2193}\u{2192}.n\u{27e9}.n\u{2190}r\u{2190}n";
    let program = intrp.parse(code).unwrap();
    for i in 0..45 {
        let mut stack = vec![TinValue::Int(i)];
        intrp.execute(&program, Option::None, &mut stack).unwrap();
        let correct_res = TinValue::Int(result(i));
        assert_eq!(
            *stack.last().unwrap(),
            correct_res,
            "Invalid output for input {}: {} != {}",
            i,
            stack.last().unwrap().to_string(),
            correct_res.to_string()
        );
    }
}

#[test]
fn tests_binet_fibonacci() {
    fn result(n: i64) -> i64 {
        let mut its = [0, 1];
        if n < 2 {
            return n;
        }
        for _ in 1..n {
            its = [its[1], its[0] + its[1]];
        }
        its[1]
    }
    let mut intrp = TinInterpreter::new();
    let code = "2 5\u{221a}\u{22b3}/^5\u{221a}\u{21b6}/.5+\u{230b}";
    let program = intrp.parse(code).unwrap();
    for i in 0..45 {
        let mut stack = vec![TinValue::Int(i)];
        intrp.execute(&program, Option::None, &mut stack).unwrap();
        let correct_res = TinValue::Int(result(i));
        assert_eq!(
            *stack.last().unwrap(),
            correct_res,
            "Invalid output for input {}: {} != {}",
            i,
            stack.last().unwrap().to_string(),
            correct_res.to_string()
        );
    }
}

#[test]
fn tests_mean() {
    fn result(v: Vec<TinValue>) -> TinValue {
        let mut res = TinValue::Int(0);
        let count = TinValue::Int(v.len() as i64);
        for i in v {
            res = add(&res, &i);
        }
        div(&res, &count)
    }
    let mut intrp = TinInterpreter::new();
    let code = "!\u{2374}\u{21b6}\u{2211}/";
    let program = intrp.parse(code).unwrap();
    for _ in 0..100 {
        let mut v = vec![];
        for _ in 0..100 {
            v.push(TinValue::Int(rand::random_range(0..10)));
        }
        let mut stack = vec![TinValue::Vector(v.clone())];
        intrp.execute(&program, Option::None, &mut stack).unwrap();
        let correct_res = result(v.clone());
        assert_eq!(
            *stack.last().unwrap(),
            correct_res,
            "Invalid output for input {}: {} != {}",
            TinValue::Vector(v).to_string(),
            stack.last().unwrap().to_string(),
            correct_res.to_string()
        );
    }
}

#[test]
fn tests_variance() {
    fn result(v: Vec<TinValue>) -> TinValue {
        let mut res = TinValue::Int(0);
        let count = TinValue::Int(v.len() as i64);
        for i in &v {
            res = add(&res, i);
        }
        let mean = div(&res, &count);
        res = TinValue::Int(0);
        for i in &v {
            let mut factor = sub(i, &mean);
            factor = mul(&factor, &factor);
            res = add(&res, &factor);
        }
        div(&res, &count)
    }
    let mut intrp = TinInterpreter::new();
    let code = "!!!\u{2374}\u{21b6}\u{2211}/-2\u{21b6}^\u{2211}\u{21b6}\u{2374}\u{21b6}/";
    let program = intrp.parse(code).unwrap();
    for _ in 0..100 {
        let mut v = vec![];
        for _ in 0..100 {
            v.push(TinValue::Int(rand::random_range(0..10)));
        }
        let mut stack = vec![TinValue::Vector(v.clone())];
        intrp.execute(&program, Option::None, &mut stack).unwrap();
        let correct_res = result(v.clone());
        assert_eq!(
            *stack.last().unwrap(),
            correct_res,
            "Invalid output for input {}: {} != {}",
            TinValue::Vector(v).to_string(),
            stack.last().unwrap().to_string(),
            correct_res.to_string()
        );
    }
}

#[test]
fn tests_mode() {
    fn result(v: Vec<TinValue>) -> TinValue {
        let mut counts = std::collections::HashMap::new();
        for i in &v {
            if let TinValue::Int(j) = i {
                counts.entry(j).or_insert(0);
                *counts.get_mut(&j).unwrap() += 1;
            }
        }
        let max_count = *counts.iter().max_by_key(|t| t.1).unwrap().1;
        for i in &v {
            if let TinValue::Int(j) = i {
                if *counts.get(&j).unwrap() == max_count {
                    return i.clone();
                }
            }
        }
        TinValue::Int(0)
    }
    let mut intrp = TinInterpreter::new();
    let code = "\u{2192}n(.n{.n\u{21b6}#})!\u{2308}\u{ba}0\u{2193}.n\u{21b6}\u{2193}\u{2190}n";
    let program = intrp.parse(code).unwrap();
    for _ in 0..100 {
        let mut v = vec![];
        for _ in 0..100 {
            v.push(TinValue::Int(rand::random_range(0..10)));
        }
        let mut stack = vec![TinValue::Vector(v.clone())];
        intrp.execute(&program, Option::None, &mut stack).unwrap();
        let correct_res = result(v.clone());
        assert_eq!(
            *stack.last().unwrap(),
            correct_res,
            "Invalid output for input {}: {} != {}",
            TinValue::Vector(v).to_string(),
            stack.last().unwrap().to_string(),
            correct_res.to_string()
        );
    }
}

#[test]
fn tests_zero_vector_generation() {
    fn result(n: i64) -> TinValue {
        TinValue::Vector(vec![TinValue::Int(0); n as usize])
    }
    let mut intrp = TinInterpreter::new();
    let code = "(\u{22b3}\u{3b9}{\u{a1}0})";
    let program = intrp.parse(code).unwrap();
    for i in 1..20 {
        let mut stack = vec![TinValue::Int(i)];
        intrp.execute(&program, Option::None, &mut stack).unwrap();
        let correct_res = result(i);
        assert_eq!(
            *stack.last().unwrap(),
            correct_res,
            "Invalid output for input {}: {} != {}",
            i,
            stack.last().unwrap().to_string(),
            correct_res.to_string()
        );
    }
}

#[test]
fn tests_min_in_matrix() {
    fn result(v: Vec<TinValue>) -> TinValue {
        let mut res: Option<TinValue> = Option::None;
        for i in v {
            if let TinValue::Vector(vv) = i {
                for j in vv {
                    if res.is_none() {
                        res = Some(j);
                    } else if let TinValue::Int(1) = lt(&j, res.as_ref().unwrap()) {
                        res = Some(j);
                    }
                }
            }
        }
        res.unwrap()
    }
    let mut intrp = TinInterpreter::new();
    let code = "(!{{}})\u{230a}\u{21b6}\u{a1}";
    let program = intrp.parse(code).unwrap();
    for i in 1..20 {
        let two = TinValue::Int(2);
        let mut v = vec![];
        for _ in 0..i {
            let mut row = vec![];
            for _ in 0..i {
                let elem = TinValue::Int(rand::random_range(0..1000000));
                row.push(div(&elem, &two));
            }
            v.push(TinValue::Vector(row));
        }
        let mut stack = vec![TinValue::Vector(v.clone())];
        println!("{}", stack.last().unwrap().to_string());
        intrp.execute(&program, Option::None, &mut stack).unwrap();
        let correct_res = result(v);
        assert_eq!(
            *stack.last().unwrap(),
            correct_res,
            "Invalid output for input {}: {} != {}",
            i,
            stack.last().unwrap().to_string(),
            correct_res.to_string()
        );
    }
}

#[test]
fn tests_identity_matrix() {
    fn result(n: i64) -> TinValue {
        let mut v = vec![];
        for i in 0..n {
            let mut row = vec![TinValue::Int(0); n as usize];
            row[i as usize] = TinValue::Int(1);
            v.push(TinValue::Vector(row));
        }
        TinValue::Vector(v)
    }
    let mut intrp = TinInterpreter::new();
    let code = "\u{2192}n(.n\u{3b9}{.n\u{3b9}!-\u{21b6}1\u{21b6}\u{2191}})\u{2190}n";
    let program = intrp.parse(code).unwrap();
    for i in 1..20 {
        let mut stack = vec![TinValue::Int(i)];
        intrp.execute(&program, Option::None, &mut stack).unwrap();
        let correct_res = result(i);
        assert_eq!(
            *stack.last().unwrap(),
            correct_res,
            "Invalid output for input {}: {} != {}",
            i,
            stack.last().unwrap().to_string(),
            correct_res.to_string()
        );
    }
}
