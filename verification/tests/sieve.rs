use linear_solver::Cache;
use linear_solver::Inference;
use linear_solver::solve_minimum;

use self::Expr::{Prime, Upto};

#[derive(Clone, PartialEq, Eq, Debug, Hash)]
pub enum Expr {
    Prime(u32),
    Upto(u32),
}

fn sieve_infer(cache: &Cache<Expr>, facts: &[Expr]) -> Option<Inference<Expr>> {
    // Put simplification rules first to find simplest set of facts.
    for (ind, ea) in facts.iter().enumerate() {
        match *ea {
            Prime(i) => {
                for (ind2, eb) in facts.iter().enumerate() {
                    if ind == ind2 {
                        continue;
                    }
                    match *eb {
                        Prime(j) => {
                            if i % j == 0 {
                                // Remove the number.
                                return Some(Inference::ManyTrue { from: vec![ea.clone()] });
                            }
                        },
                        _ => {},
                    }
                }
            },
            Upto(n) => {
                if n > 1 {
                    let new_prime = Prime(n);
                    let new_upto = Upto(n - 1);
                    if !cache.contains(&new_prime) && !cache.contains(&new_upto) {
                        return Some(Inference::SimplifyMany {
                            from: vec![ea.clone()],
                            to: vec![new_prime, new_upto],
                        });
                    }
                } else {
                    return Some(Inference::ManyTrue { from: vec![ea.clone()] });
                }
            },
        }
    }
    None
}

#[test]
fn sieve_of_eratosthenes() {
    let primes_to_100: Vec<u32> = vec![
        2, 3, 5, 7, 11, 13, 17, 19, 23, 29, 31, 37, 41, 43, 47, 53, 59, 61, 67, 71, 73, 79, 83,
        89, 97,
    ];
    let res = solve_minimum(vec![Upto(100)], sieve_infer);
    assert_eq!(res.len(), 25);
    for p in &primes_to_100 {
        assert!(res.contains(&Prime(*p)));
    }
    for e in &res {
        assert!(matches!(e, Prime(_)));
    }
}
