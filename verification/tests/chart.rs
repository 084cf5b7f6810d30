use strip_chart::AsciiStripChart;

/// Counts a value in hundredths, the unit of the charts below.
fn units(value: f64) -> i64 {
    (value * 100.0).round() as i64
}

fn show(sc: &AsciiStripChart) {
    println!("<{}>", std::str::from_utf8(sc.as_bytes()).unwrap());
}

// A 1-1 mapping from x to column number.
#[test]
#[allow(non_snake_case)]
fn lib_col_fn1() {
    let mut buf: [u8; 11] = [b'.'; 11];
    let sc = AsciiStripChart::new(&mut buf, units(0.0), units(10.0));
    assert_eq!(sc.get_raw_col(units(0.0)), 0);
    assert_eq!(sc.get_raw_col(units(10.0)), 10);
    assert_eq!(sc.get_raw_col(units(5.0)), 5);
    assert_eq!(sc.get_raw_col(units(4.51)), 5);
    assert_eq!(sc.get_raw_col(units(5.49)), 5);
    assert_eq!(sc.get_raw_col(units(5.5)), 6);
}

// A skewed 1-1 mapping from x to column number.
#[test]
#[allow(non_snake_case)]
fn lib_col_fn2() {
    let mut buf: [u8; 11] = [b'.'; 11];
    let sc = AsciiStripChart::new(&mut buf, units(-2.0), units(8.0));
    assert_eq!(sc.get_raw_col(units(-2.0)), 0);
    assert_eq!(sc.get_raw_col(units(8.0)), 10);
    assert_eq!(sc.get_raw_col(units(3.0)), 5);
    assert_eq!(sc.get_raw_col(units(2.51)), 5);
    assert_eq!(sc.get_raw_col(units(3.49)), 5);
    assert_eq!(sc.get_raw_col(units(3.5)), 6);
}

// A skewed 10-1 mapping from x to column number.
#[test]
#[allow(non_snake_case)]
fn lib_col_fn3() {
    let mut buf: [u8; 11] = [b'.'; 11];
    let sc = AsciiStripChart::new(&mut buf, units(-20.0), units(80.0));
    assert_eq!(sc.get_raw_col(units(-20.0)), 0);
    assert_eq!(sc.get_raw_col(units(80.0)), 10);
    assert_eq!(sc.get_raw_col(units(30.0)), 5);
    assert_eq!(sc.get_raw_col(units(25.1)), 5);
    assert_eq!(sc.get_raw_col(units(34.9)), 5);
    assert_eq!(sc.get_raw_col(units(35.0)), 6);
}

#[test]
#[allow(non_snake_case)]
fn lib_set1() {
    let mut buf: [u8; 11] = [b'.'; 11];
    let mut sc = AsciiStripChart::new(&mut buf, units(-20.0), units(80.0));
    show(&sc);
    sc.set(b'|', units(0.0));
    show(&sc);
    sc.with(b'A', units(-9.0), |sc| sc.with(b'B', units(23.0), |sc| show(&sc)));
    show(&sc);
}

#[test]
#[allow(non_snake_case)]
fn lib_junk() {
    let mut s: [u8; 11] = [b'.'; 11];
    println!("{}", "foo".repeat(5));
    println!("<{:?}>", s);
    println!("<{}>", std::str::from_utf8(&s).unwrap());
    for i in 0..255 {
        s[0] = i as u8;
        println!("<{}>", String::from_utf8_lossy(&s));
    }
}

#[test]
fn new_keeps_the_cells() {
    let mut buf: [u8; 5] = *b"a.c.e";
    let sc = AsciiStripChart::new(&mut buf, 0, 4);
    assert_eq!(sc.as_bytes(), b"a.c.e");
}

#[test]
fn get_col_keeps_the_mark_on_the_chart() {
    let mut buf: [u8; 11] = [b'.'; 11];
    let sc = AsciiStripChart::new(&mut buf, units(0.0), units(10.0));
    assert_eq!(sc.get_col(b'x', units(0.0)), (0, b'x'));
    assert_eq!(sc.get_col(b'x', units(7.2)), (7, b'x'));
    assert_eq!(sc.get_col(b'x', units(10.0)), (10, b'x'));
    // Half a bucket past either end is still the outer column.
    assert_eq!(sc.get_col(b'x', units(10.49)), (10, b'x'));
    assert_eq!(sc.get_col(b'x', units(-0.5)), (0, b'x'));
}

#[test]
fn get_col_flags_values_off_the_chart() {
    let mut buf: [u8; 11] = [b'.'; 11];
    let sc = AsciiStripChart::new(&mut buf, units(0.0), units(10.0));
    assert_eq!(sc.get_raw_col(units(10.5)), 11);
    assert_eq!(sc.get_col(b'x', units(10.5)), (10, b'>'));
    assert_eq!(sc.get_col(b'x', units(1000.0)), (10, b'>'));
    assert_eq!(sc.get_raw_col(units(-1.5)), -1);
    assert_eq!(sc.get_col(b'x', units(-1.5)), (0, b'<'));
    assert_eq!(sc.get_col(b'x', units(-1000.0)), (0, b'<'));
    assert_eq!(sc.get_col(b'x', i64::MAX), (10, b'>'));
    assert_eq!(sc.get_col(b'x', i64::MIN), (0, b'<'));
}

#[test]
fn column_0_is_as_wide_as_the_others() {
    let mut buf: [u8; 11] = [b'.'; 11];
    let sc = AsciiStripChart::new(&mut buf, units(0.0), units(10.0));
    // Half a bucket before `lo` is the edge of column 0.
    assert_eq!(sc.get_raw_col(units(-0.5)), 0);
    assert_eq!(sc.get_col(b'x', units(-0.5)), (0, b'x'));
    assert_eq!(sc.get_raw_col(units(-0.51)), -1);
    assert_eq!(sc.get_col(b'x', units(-0.51)), (0, b'<'));
    // A full bucket before `lo` is the centre of column -1.
    assert_eq!(sc.get_raw_col(units(-1.0)), -1);
    assert_eq!(sc.get_col(b'x', units(-1.0)), (0, b'<'));
    assert_eq!(sc.get_raw_col(units(-1.49)), -1);
    assert_eq!(sc.get_raw_col(units(-1.5)), -1);
    assert_eq!(sc.get_raw_col(units(-1.51)), -2);
}

#[test]
fn set_returns_the_byte_it_replaces() {
    let mut buf: [u8; 11] = *b"0123456789a";
    let mut sc = AsciiStripChart::new(&mut buf, units(-20.0), units(80.0));
    assert_eq!(sc.set(b'|', units(0.0)), b'2');
    assert_eq!(sc.as_bytes(), b"01|3456789a");
    assert_eq!(sc.set(b'A', units(0.0)), b'|');
    assert_eq!(sc.as_bytes(), b"01A3456789a");
    assert_eq!(sc.set(b'A', units(-100.0)), b'0');
    assert_eq!(sc.as_bytes(), b"<1A3456789a");
    assert_eq!(sc.set(b'A', units(100.0)), b'a');
    assert_eq!(sc.as_bytes(), b"<1A3456789>");
}

#[test]
fn set_writes_through_to_the_buffer() {
    let mut buf: [u8; 11] = [b'.'; 11];
    {
        let mut sc = AsciiStripChart::new(&mut buf, units(-20.0), units(80.0));
        sc.set(b'|', units(0.0));
        sc.set(b'B', units(23.0));
    }
    assert_eq!(&buf, b"..|.B......");
}

#[test]
fn with_draws_the_mark_and_takes_it_off() {
    let mut buf: [u8; 11] = [b'.'; 11];
    let mut sc = AsciiStripChart::new(&mut buf, units(-20.0), units(80.0));
    sc.set(b'|', units(0.0));
    sc.with(b'A', units(-9.0), |sc| {
        assert_eq!(sc.as_bytes(), b".A|........");
        sc.with(b'B', units(23.0), |sc| {
            assert_eq!(sc.as_bytes(), b".A|.B......");
        });
        assert_eq!(sc.as_bytes(), b".A|........");
    });
    assert_eq!(sc.as_bytes(), b"..|........");
}

#[test]
fn marks_on_one_cell_come_off_in_reverse_order() {
    let mut buf: [u8; 11] = [b'.'; 11];
    let mut sc = AsciiStripChart::new(&mut buf, units(0.0), units(10.0));
    sc.with(b'A', units(3.0), |sc| {
        assert_eq!(sc.as_bytes(), b"...A.......");
        sc.with(b'B', units(3.2), |sc| {
            assert_eq!(sc.as_bytes(), b"...B.......");
            sc.with(b'C', units(2.9), |sc| {
                assert_eq!(sc.as_bytes(), b"...C.......");
            });
            assert_eq!(sc.as_bytes(), b"...B.......");
        });
        assert_eq!(sc.as_bytes(), b"...A.......");
    });
    assert_eq!(sc.as_bytes(), b"...........");
}

#[test]
fn with_flags_values_off_the_chart() {
    let mut buf: [u8; 4] = *b"abcd";
    let mut sc = AsciiStripChart::new(&mut buf, 0, 3);
    sc.with(b'x', 50, |sc| {
        assert_eq!(sc.as_bytes(), b"abc>");
        sc.with(b'y', -50, |sc| {
            assert_eq!(sc.as_bytes(), b"<bc>");
        });
    });
    assert_eq!(sc.as_bytes(), b"abcd");
}

#[test]
fn with_puts_back_one_cell_only() {
    let mut buf: [u8; 11] = [b'.'; 11];
    let mut sc = AsciiStripChart::new(&mut buf, units(0.0), units(10.0));
    sc.with(b'A', units(3.0), |sc| {
        // What is set inside stays, but for the cell that `with` holds.
        sc.set(b'X', units(3.0));
        sc.set(b'Y', units(6.0));
        assert_eq!(sc.as_bytes(), b"...X..Y....");
    });
    assert_eq!(sc.as_bytes(), b"......Y....");
}

#[test]
fn a_chart_of_two_cells() {
    let mut buf: [u8; 2] = [b'.'; 2];
    let mut sc = AsciiStripChart::new(&mut buf, 0, 100);
    assert_eq!(sc.get_col(b'x', 49), (0, b'x'));
    assert_eq!(sc.get_col(b'x', 50), (1, b'x'));
    assert_eq!(sc.get_col(b'x', 149), (1, b'x'));
    assert_eq!(sc.get_col(b'x', 150), (1, b'>'));
    assert_eq!(sc.set(b'x', 100), b'.');
    assert_eq!(sc.as_bytes(), b".x");
}
