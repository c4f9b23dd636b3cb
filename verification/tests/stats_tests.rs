use musicdb::stats::{GenreCounts, YearCounts};

fn cell(y: i32, count: &str) -> String {
    if count.trim() == "0" {
        format!(", \x1b[90m{y}: {count}\x1b[0m")
    } else {
        format!(", {y}: {count}")
    }
}

#[test]
fn year_table_by_decade() {
    let mut years = YearCounts::new();
    for y in [1994, 2001, 1997, 1994] {
        years.add(y);
    }
    for _ in 0..11 {
        years.add(2001);
    }
    assert_eq!(years.total, 15);
    assert_eq!(years.counts, vec![(1994, 2), (1997, 1), (2001, 12)]);
    let table = years.table();
    assert_eq!(table.len(), 2);
    let mut first = String::from("1990-1999 | \u{2211}:   3");
    for (y, c) in [(1990, " 0"), (1991, " 0"), (1992, " 0"), (1993, " 0"), (1994, " 2"), (1995, " 0"), (1996, " 0"), (1997, " 1"), (1998, " 0"), (1999, " 0")] {
        first.push_str(&cell(y, c));
    }
    assert_eq!(table[0], first);
    let mut second = String::from("2000-2009 | \u{2211}:  12");
    for y in 2000..2010 {
        second.push_str(&cell(y, if y == 2001 { "12" } else { " 0" }));
    }
    assert_eq!(table[1], second);
}

#[test]
fn year_table_of_nothing() {
    assert!(YearCounts::new().table().is_empty());
}

#[test]
fn year_table_rounds_decades_towards_zero() {
    let mut years = YearCounts::new();
    years.add(-15);
    let table = years.table();
    assert_eq!(table.len(), 1);
    assert!(table[0].starts_with("-10--1 | \u{2211}:  0, \x1b[90m-10: 0\x1b[0m"));
}

#[test]
fn genres_by_count() {
    let mut genres = GenreCounts::new();
    for g in ["Rock", "Jazz", "Pop", "Rock", "Pop"] {
        genres.add(g.to_string());
    }
    assert_eq!(genres.total, 5);
    let names: Vec<&str> = genres.counts.iter().map(|(g, _)| g.as_str()).collect();
    assert_eq!(names, vec!["Jazz", "Pop", "Rock"]);
    assert_eq!(genres.lines(), vec!["Pop: 2", "Rock: 2", "Jazz: 1"]);
}
