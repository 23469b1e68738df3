use correlate::Correlate;
use correlate::Either;

/// A pair of samples of the same size: `0..=10` as `u8` and `-10..=0` as `i8`.
fn make_symmetric_sample() -> (Vec<u8>, Vec<i8>) {
    ((0..=10).collect(), (-10..=0).collect())
}

#[test]
fn linear_corr_case01() {
    // linear cor where both `a` and `b` is 1
    let (x, y) = make_symmetric_sample();
    let mut x_idx = 0;
    let mut y_idx = 0;

    let mut it = x.iter().linear_correlate(y.iter(), 1, 1);
    while let Some(either) = it.next() {
        match either {
            Either::Primary(v) => {
                assert_eq!(*v, x[x_idx]);
                x_idx += 1;
            },
            Either::Secondary(v) => {
                assert_eq!(*v, y[y_idx]);
                y_idx += 1;
            }
        }
        assert!(x_idx - y_idx <= 2);
    }

    assert_eq!(x_idx, 11);
    assert_eq!(y_idx, 10);
}
#[test]
fn linear_corr_case02() {
    // linear cor where both `a` and `b` is -1
    let (x, y) = make_symmetric_sample();
    let mut x_idx = 0;
    let mut y_idx = 0;

    let mut it = x.iter().linear_correlate(y.iter(), -1, -1);
    while let Some(either) = it.next() {
        match either {
            Either::Primary(v) => {
                assert_eq!(*v, x[x_idx]);
                x_idx += 1;
            },
            Either::Secondary(v) => {
                assert_eq!(*v, y[y_idx]);
                y_idx += 1;
            }
        }
        assert!(y_idx - x_idx <= 2);
    }

    assert_eq!(x_idx, 10);
    assert_eq!(y_idx, 11);
}
#[test]
fn linear_corr_case03() {
    // linear cor where both `a` and `b` is 0
    let (x, y) = make_symmetric_sample();
    let mut x_idx = 0;
    let mut y_idx = 0;

    let mut it = x.iter().linear_correlate(y.iter(), 0, 0);
    while let Some(either) = it.next() {
        match either {
            Either::Primary(v) => {
                assert_eq!(*v, x[x_idx]);
                x_idx += 1;
            },
            Either::Secondary(v) => {
                assert_eq!(*v, y[y_idx]);
                y_idx += 1;
            }
        }
        assert!(y_idx - x_idx <= 1);
    }

    assert_eq!(x_idx, y_idx);
    assert_eq!(x_idx, 0);
}
#[test]
fn linear_corr_case04() {
    // linear cor where both `a` is 1 and `b` is 0
    let (x, y) = make_symmetric_sample();
    let mut x_idx = 0;
    let mut y_idx = 0;

    let mut it = x.iter().linear_correlate(y.iter(), 1, 0);
    while let Some(either) = it.next() {
        match either {
            Either::Primary(v) => {
                assert_eq!(*v, x[x_idx]);
                x_idx += 1;
            },
            Either::Secondary(v) => {
                assert_eq!(*v, y[y_idx]);
                y_idx += 1;
            }
        }
        assert!(x_idx - y_idx <= 1);
    }

    assert_eq!(x_idx, y_idx);
    assert_eq!(x_idx, 11);
}
#[test]
fn linear_corr_case05() {
    // linear cor where both `a` is -1 and `b` is 0
    let (x, y) = make_symmetric_sample();
    let mut x_idx = 0;
    let mut y_idx = 0;

    let mut it = x.iter().linear_correlate(y.iter(), -1, 0);
    while let Some(either) = it.next() {
        match either {
            Either::Primary(v) => {
                assert_eq!(*v, x[x_idx]);
                x_idx += 1;
            },
            Either::Secondary(v) => {
                assert_eq!(*v, y[y_idx]);
                y_idx += 1;
            }
        }
        assert!(y_idx - x_idx <= 1);
    }

    assert_eq!(x_idx, y_idx);
    assert_eq!(x_idx, 11);
}
#[test]
fn linear_corr_case06() {
    // linear cor where both `a` is -1 and `b` is 1
    let (x, y) = make_symmetric_sample();
    let mut x_idx = 0isize;
    let mut y_idx = 0isize;

    let mut it = x.iter().linear_correlate(y.iter(), -1, 1);
    while let Some(either) = it.next() {
        match either {
            Either::Primary(v) => {
                assert_eq!(*v, x[x_idx as usize]);
                x_idx += 1;
            },
            Either::Secondary(v) => {
                assert_eq!(*v, y[y_idx as usize]);
                y_idx += 1;
            }
        }
        assert!(x_idx - y_idx <= 1);
    }

    assert_eq!(x_idx, y_idx);
    assert_eq!(x_idx, 11);
}
#[test]
fn linear_corr_case07() {
    // linear cor where both `a` is 1 and `b` is -1
    let (x, y) = make_symmetric_sample();
    let mut x_idx = 0isize;
    let mut y_idx = 0isize;

    let mut it = x.iter().linear_correlate(y.iter(), 1, -1);
    while let Some(either) = it.next() {
        match either {
            Either::Primary(v) => {
                assert_eq!(*v, x[x_idx as usize]);
                x_idx += 1;
            },
            Either::Secondary(v) => {
                assert_eq!(*v, y[y_idx as usize]);
                y_idx += 1;
            }
        }
        assert!(y_idx - x_idx <= 1);
    }

    assert_eq!(x_idx, y_idx);
    assert_eq!(x_idx, 11);
}
#[test]
fn linear_corr_case08() {
    // linear cor where both `a` is 2 and `b` is 0
    let (x, y) = make_symmetric_sample();
    let mut x_idx = 0;
    let mut y_idx = 0;

    let mut it = x.iter().linear_correlate(y.iter(), 2, 0);
    while let Some(either) = it.next() {
        match either {
            Either::Primary(v) => {
                assert_eq!(*v, x[x_idx]);
                x_idx += 1;
            },
            Either::Secondary(v) => {
                assert_eq!(*v, y[y_idx]);
                y_idx += 1;
            }
        }
        assert!((x_idx as f64 / 2f64) as usize - y_idx <= 1);
    }

    assert_eq!(x_idx, 11);
    assert_eq!(y_idx, 5);
}
#[test]
fn linear_corr_case09() {
    // linear cor where both `a` is -2 and `b` is 0
    let (x, y) = make_symmetric_sample();
    let mut x_idx = 0;
    let mut y_idx = 0;

    let mut it = x.iter().linear_correlate(y.iter(), -2, 0);
    while let Some(either) = it.next() {
        match either {
            Either::Primary(v) => {
                assert_eq!(*v, x[x_idx]);
                x_idx += 1;
            },
            Either::Secondary(v) => {
                assert_eq!(*v, y[y_idx]);
                y_idx += 1;
            }
        }
        assert!((y_idx as f64 / 2f64) as usize - x_idx <= 1);
    }

    assert_eq!(y_idx, 11);
    assert_eq!(x_idx, 5);
}
#[test]
fn linear_corr_case10() {
    // linear cor where both `a` is 2 and `b` is 1
    let (x, y) = make_symmetric_sample();
    let mut x_idx = 0;
    let mut y_idx = 0;

    let mut it = x.iter().linear_correlate(y.iter(), 2, 1);
    while let Some(either) = it.next() {
        match either {
            Either::Primary(v) => {
                assert_eq!(*v, x[x_idx]);
                x_idx += 1;
            },
            Either::Secondary(v) => {
                assert_eq!(*v, y[y_idx]);
                y_idx += 1;
            }
        }
        assert!((x_idx as f64 / 2f64) as usize - y_idx <= 1);
        if x_idx < 3 {
            assert_eq!(y_idx, 0);
        }
    }

    assert_eq!(x_idx, 11);
    assert_eq!(y_idx, 5);
}
#[test]
fn linear_corr_case11() {
    // linear cor where both `a` is 2 and `b` is -1
    let (x, y) = make_symmetric_sample();
    let mut x_idx = 0isize;
    let mut y_idx = 0isize;

    let mut it = x.iter().linear_correlate(y.iter(), 2, -1);
    while let Some(either) = it.next() {
        match either {
            Either::Primary(v) => {
                assert_eq!(*v, x[x_idx as usize]);
                x_idx += 1;
            },
            Either::Secondary(v) => {
                assert_eq!(*v, y[y_idx as usize]);
                y_idx += 1;
            }
        }
        assert!((x_idx as f64 / 2f64) as isize - y_idx <= 1);
        if x_idx < 2 {
            assert_eq!(y_idx, 1);
        }
    }

    assert_eq!(x_idx, 11);
    assert_eq!(y_idx, 6);
}
#[test]
fn linear_corr_case12() {
    // linear cor where both `a` is -2 and `b` is 1
    let (x, y) = make_symmetric_sample();
    let mut x_idx = 0isize;
    let mut y_idx = 0isize;

    let mut it = x.iter().linear_correlate(y.iter(), -2, 1);
    while let Some(either) = it.next() {
        match either {
            Either::Primary(v) => {
                assert_eq!(*v, x[x_idx as usize]);
                x_idx += 1;
            },
            Either::Secondary(v) => {
                assert_eq!(*v, y[y_idx as usize]);
                y_idx += 1;
            }
        }
        assert!((y_idx as f64 / 2f64) as isize - x_idx <= 1);
        if y_idx < 2 {
            assert_eq!(x_idx, 1);
        }
    }

    assert_eq!(y_idx, 11);
    assert_eq!(x_idx, 6);
}
#[test]
fn linear_corr_case13() {
    // linear cor where both `a` is -2 and `b` is -1
    let (x, y) = make_symmetric_sample();
    let mut x_idx = 0isize;
    let mut y_idx = 0isize;

    let mut it = x.iter().linear_correlate(y.iter(), -2, -1);
    while let Some(either) = it.next() {
        match either {
            Either::Primary(v) => {
                assert_eq!(*v, x[x_idx as usize]);
                x_idx += 1;
            },
            Either::Secondary(v) => {
                assert_eq!(*v, y[y_idx as usize]);
                y_idx += 1;
            }
        }
        assert!((y_idx as f64 / 2f64) as isize - x_idx <= 1);
        if y_idx < 3 {
            assert_eq!(x_idx, 0);
        }
    }

    assert_eq!(y_idx, 11);
    assert_eq!(x_idx, 5);
}
#[test]
fn linear_corr_case14() {
    // linear cor where both `a` is out of bound and `b` is 1
    let (x, y) = make_symmetric_sample();
    let mut x_idx = 0isize;
    let mut y_idx = 0isize;

    let mut it = x.iter().linear_correlate(y.iter(), (x.len() + 1) as isize, 1);
    while let Some(either) = it.next() {
        match either {
            Either::Primary(v) => {
                assert_eq!(*v, x[x_idx as usize]);
                x_idx += 1;
            },
            Either::Secondary(v) => {
                assert_eq!(*v, y[y_idx as usize]);
                y_idx += 1;
            }
        }
        if (x_idx as usize) < x.len() {
            assert_eq!(y_idx, 0);
        }
    }

    assert_eq!(x_idx, 11);
    assert_eq!(y_idx, 0);
}
#[test]
fn linear_corr_case15() {
    // linear cor where both `a` is 1 and `b` is out of bound
    let (x, y) = make_symmetric_sample();
    let mut x_idx = 0isize;
    let mut y_idx = 0isize;

    let mut it = x.iter().linear_correlate(y.iter(), 1, (x.len() + 1) as isize);
    while let Some(either) = it.next() {
        match either {
            Either::Primary(v) => {
                assert_eq!(*v, x[x_idx as usize]);
                x_idx += 1;
            },
            Either::Secondary(v) => {
                assert_eq!(*v, y[y_idx as usize]);
                y_idx += 1;
            }
        }
        if (x_idx as usize) < x.len() {
            assert_eq!(y_idx, 0);
        }
    }

    assert_eq!(x_idx, 11);
    assert_eq!(y_idx, 0);
}
#[test]
fn linear_corr_case16() {
    // linear cor where both `a` is 1 and `b` is negative out of bound
    let (x, y) = make_symmetric_sample();
    let mut x_idx = 0isize;
    let mut y_idx = 0isize;

    let mut it = x.iter().linear_correlate(y.iter(), 1, y.len() as isize * -1 - 1);
    while let Some(either) = it.next() {
        match either {
            Either::Primary(v) => {
                assert_eq!(*v, x[x_idx as usize]);
                x_idx += 1;
            },
            Either::Secondary(v) => {
                assert_eq!(*v, y[y_idx as usize]);
                y_idx += 1;
            }
        }
        if (y_idx as usize) < y.len() {
            assert_eq!(x_idx, 0);
        }
    }

    assert_eq!(y_idx, 11);
    assert_eq!(x_idx, 0);
}
#[test]
fn linear_corr_case17() {
    // linear cor where both `a` is negative out of bound and `b` is 1
    let (x, y) = make_symmetric_sample();
    let mut x_idx = 0isize;
    let mut y_idx = 0isize;

    let mut it = x.iter().linear_correlate(y.iter(), y.len() as isize * -1 - 1, 1);
    while let Some(either) = it.next() {
        match either {
            Either::Primary(v) => {
                assert_eq!(*v, x[x_idx as usize]);
                x_idx += 1;
            },
            Either::Secondary(v) => {
                assert_eq!(*v, y[y_idx as usize]);
                y_idx += 1;
            }
        }
        if (y_idx as usize) < y.len() {
            assert_eq!(x_idx, 1);
        }
    }

    assert_eq!(y_idx, 11);
    assert_eq!(x_idx, 1);
}
#[test]
fn corr_with_case01() {
    // interleaving between primary and secondary
    let (x, y) = make_symmetric_sample();
    let mut x_idx = 0;
    let mut y_idx = 0;

    let mut it = x.iter().correlate_with(y.iter(), |v| {
        v.is_secondary()
    });
    while let Some(either) = it.next() {
        match either {
            Either::Primary(v) => {
                assert_eq!(*v, x[x_idx]);
                x_idx += 1;
            },
            Either::Secondary(v) => {
                assert_eq!(*v, y[y_idx]);
                y_idx += 1;
            }
        }
        assert!(x_idx - y_idx <= 1);
    }

    assert_eq!(x_idx, y_idx);
    assert_eq!(x_idx, x.len());
}
#[test]
fn corr_with_case02() {
    // consume only primary
    let (x, y) = make_symmetric_sample();
    let mut x_idx = 0;
    let mut y_idx = 0;

    let mut it = x.iter().correlate_with(y.iter(), |_| {
        true
    });
    while let Some(either) = it.next() {
        match either {
            Either::Primary(v) => {
                assert_eq!(*v, x[x_idx]);
                x_idx += 1;
            },
            Either::Secondary(v) => {
                assert_eq!(*v, y[y_idx]);
                y_idx += 1;
            }
        }
    }

    assert_eq!(x_idx, x.len());
    assert_eq!(y_idx, 0);
}
#[test]
fn corr_with_case03() {
    // consume only secondary
    let (x, y) = make_symmetric_sample();
    let mut x_idx = 0;
    let mut y_idx = 0;

    let mut it = x.iter().correlate_with(y.iter(), |_| {
        false
    });
    while let Some(either) = it.next() {
        match either {
            Either::Primary(v) => {
                assert_eq!(*v, x[x_idx]);
                x_idx += 1;
            },
            Either::Secondary(v) => {
                assert_eq!(*v, y[y_idx]);
                y_idx += 1;
            }
        }
    }

    // Since correlate_with always consume value from primary at least once, x_idx must be 1.
    assert_eq!(x_idx, 1);
    assert_eq!(y_idx, y.len());
}
#[test]
fn corr_with_case04() {
    // consume first 6 of both iterators then interleave iterate afterward
    let (x, y) = make_symmetric_sample();
    let mut x_idx = 0;
    let mut y_idx = 0;

    let mut it = x.iter().correlate_with(y.iter(), |v| {
        match v {
            Either::Primary(p) => {
                **p < 5 // when current p is >= 5, it mean that it's consume up to this **p value
            },
            Either::Secondary(s) => {
                **s > -5 // when current p is > -5, it mean that it's consume up to this **p value
            }
        }
    });
    while let Some(either) = it.next() {
        match either {
            Either::Primary(v) => {
                assert_eq!(*v, x[x_idx]);
                x_idx += 1;
            },
            Either::Secondary(v) => {
                assert_eq!(*v, y[y_idx]);
                y_idx += 1;
            }
        }

        if x_idx <= 5 {
            assert_eq!(y_idx, 0);
        }
    }

    assert_eq!(x_idx, x.len());
    assert_eq!(y_idx, y.len());
}
#[test]
fn corr_with_case05() {
    // simulate linear correlation where a = -2 and b = 1. 
    let (x, y) = make_symmetric_sample();
    let mut x_idx = 0;
    let mut y_idx = 0;

    let mut it = x.iter().correlate_with(y.iter().enumerate(), |v| {
        match v {
            Either::Primary(_) => {
                false // after it return one item from primary, next item always come from secondary
            },
            Either::Secondary((i, _)) => {
                i % 2 == 1 // enumerate begin with 0 so if it mod 2 == 1 then it mean two item is returned
            }
        }
    });
    while let Some(either) = it.next() {
        match either {
            Either::Primary(v) => {
                assert_eq!(*v, x[x_idx]);
                x_idx += 1;
            },
            Either::Secondary((_, v)) => {
                assert_eq!(*v, y[y_idx]);
                y_idx += 1;
            }
        }

        if x_idx == 1 {
            assert!(y_idx <= 2);
        } else {
            assert!(x_idx - (y_idx as f32 / 2f32) as usize <= 1);
        }
    }

    assert_eq!(x_idx, 6);
    assert_eq!(y_idx, y.len());
}