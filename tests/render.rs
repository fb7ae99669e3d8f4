use nhmoon::calendar::{header, to_decimal, Calendar};
use nhmoon::canvas::{Area, Canvas, CellStyle};
use nhmoon::date::Date;
use nhmoon::moon::Phoon;
use nhmoon::week::DateStyle;
use nhmoon::window::WeekWindow;

/// How a cell looks once its style is laid over the base style: the weekday
/// header and the labels are bold, and a plain date keeps the base style.
#[derive(Clone, Copy, Debug, PartialEq, Eq)]
enum Look {
    Base,
    Bold,
    Full,
    New,
}

fn look(style: Option<CellStyle>) -> Look {
    match style {
        None | Some(CellStyle::Date(DateStyle::Base)) => Look::Base,
        Some(CellStyle::Weekday) | Some(CellStyle::Year) | Some(CellStyle::Month) => Look::Bold,
        Some(CellStyle::Date(DateStyle::FullMoon)) => Look::Full,
        Some(CellStyle::Date(DateStyle::NewMoon)) => Look::New,
    }
}

fn row_text(canvas: &Canvas, y: u16) -> String {
    (0..canvas.width())
        .map(|x| canvas.cell(x, y).symbol.unwrap_or(' '))
        .collect()
}

#[test]
fn test_across_year() {
    let today = Date::from_calendar_date(2025, 1, 22).unwrap();
    let mut calpager = WeekWindow::new(today, Phoon);
    let area = Area { x: 0, y: 0, width: 80, height: 24 };
    let mut canvas = Canvas::new(80, 24);
    Calendar::<Phoon>::new().render(area, &mut canvas, &mut calpager);
    let expected_lines = [
            "                  Su     Mo     Tu     We     Th     Fr     Sa                  ",
            "                 ──────────────────────────────────────────────                 ",
            "           2024   15     16     17     18     19     20     21   December       ",
            "                                                                                ",
            "                  22     23     24     25     26     27     28                  ",
            "                                    ┌──────────────────────────                 ",
            "                  29     30     31  │   1      2      3      4   January        ",
            "                 ───────────────────┘                                           ",
            "           2025    5      6      7      8      9     10     11                  ",
            "                                                                                ",
            "                  12     13     14     15     16     17     18                  ",
            "                                                                                ",
            "                  19     20     21    [22]    23     24     25                  ",
            "                                                         ┌─────                 ",
            "                  26     27     28     29     30     31  │   1   February       ",
            "                 ────────────────────────────────────────┘                      ",
            "                   2      3      4      5      6      7      8                  ",
            "                                                                                ",
            "                   9     10     11     12     13     14     15                  ",
            "                                                                                ",
            "                  16     17     18     19     20     21     22                  ",
            "                                                         ┌─────                 ",
            "                  23     24     25     26     27     28  │   1   March          ",
            "                 ────────────────────────────────────────┘                      ",
        ];
    for (y, line) in expected_lines.iter().enumerate() {
        assert_eq!(row_text(&canvas, y as u16), *line, "row {}", y);
    }
    let mut expected = vec![vec![Look::Base; 80]; 24];
    for (x, y, w, h, l) in [
        (17, 0, 46, 1, Look::Bold),
        (11, 2, 4, 1, Look::Bold),
        (17, 2, 4, 1, Look::Full),
        (24, 2, 4, 1, Look::Full),
        (31, 2, 4, 1, Look::Full),
        (65, 2, 8, 1, Look::Bold),
        (17, 6, 4, 1, Look::New),
        (24, 6, 4, 1, Look::New),
        (31, 6, 4, 1, Look::New),
        (38, 6, 4, 1, Look::New),
        (45, 6, 4, 1, Look::New),
        (65, 6, 7, 1, Look::Bold),
        (11, 8, 4, 1, Look::Bold),
        (31, 10, 4, 1, Look::Full),
        (38, 10, 4, 1, Look::Full),
        (45, 10, 4, 1, Look::Full),
        (52, 10, 4, 1, Look::Full),
        (38, 14, 4, 1, Look::New),
        (45, 14, 4, 1, Look::New),
        (52, 14, 4, 1, Look::New),
        (59, 14, 4, 1, Look::New),
        (65, 14, 8, 1, Look::Bold),
        (45, 18, 4, 1, Look::Full),
        (52, 18, 4, 1, Look::Full),
        (59, 18, 4, 1, Look::Full),
        (45, 22, 4, 1, Look::New),
        (52, 22, 4, 1, Look::New),
        (59, 22, 4, 1, Look::New),
        (65, 22, 5, 1, Look::Bold),
    ] {
        for yy in y..y + h {
            for xx in x..x + w {
                expected[yy][xx] = l;
            }
        }
    }
    for y in 0..24u16 {
        for x in 0..80u16 {
            assert_eq!(
                look(canvas.cell(x, y).style),
                expected[y as usize][x as usize],
                "cell {}, {}",
                x,
                y
            );
        }
    }
}

#[test]
fn weeks_for_lines_rounds_up_and_is_never_zero() {
    assert_eq!(Calendar::<Phoon>::weeks_for_lines(24), 11);
    assert_eq!(Calendar::<Phoon>::weeks_for_lines(25), 12);
    assert_eq!(Calendar::<Phoon>::weeks_for_lines(3), 1);
    assert_eq!(Calendar::<Phoon>::weeks_for_lines(2), 1);
    assert_eq!(Calendar::<Phoon>::weeks_for_lines(0), 1);
    assert_eq!(Calendar::<Phoon>::weeks_for_lines(5), 2);
}

#[test]
fn decimal_and_header() {
    assert_eq!(to_decimal(2024).iter().collect::<String>(), "2024");
    assert_eq!(to_decimal(-9999).iter().collect::<String>(), "-9999");
    assert_eq!(to_decimal(0).iter().collect::<String>(), "0");
    assert_eq!(to_decimal(i32::MIN).iter().collect::<String>(), "-2147483648");
    assert_eq!(
        header().iter().collect::<String>(),
        " Su     Mo     Tu     We     Th     Fr     Sa "
    );
}

#[test]
fn drawing_is_clipped_to_a_small_area() {
    let today = Date::from_calendar_date(2025, 1, 22).unwrap();
    let mut calpager = WeekWindow::new(today, Phoon);
    let mut canvas = Canvas::new(30, 3);
    let area = Area { x: 0, y: 0, width: 30, height: 3 };
    Calendar::<Phoon>::new().render(area, &mut canvas, &mut calpager);
    assert_eq!(calpager.weeks().unwrap().len(), 1);
    assert_eq!(row_text(&canvas, 0), "       Su     Mo     Tu     We");
    let mut empty = Canvas::new(0, 0);
    let area = Area { x: 0, y: 0, width: 0, height: 0 };
    Calendar::<Phoon>::new().render(area, &mut empty, &mut calpager);
    assert_eq!(calpager.weeks().unwrap().len(), 1);
}

#[test]
fn earliest_date_gets_a_border_before_it() {
    let today = Date::from_calendar_date(2025, 1, 22).unwrap();
    let mut calpager = WeekWindow::new(today, Phoon).start_date(Date::earliest());
    let mut canvas = Canvas::new(80, 8);
    let area = Area { x: 0, y: 0, width: 80, height: 8 };
    Calendar::<Phoon>::new().render(area, &mut canvas, &mut calpager);
    let mut row = format!("{}-9999{}\u{2502}{}1", " ".repeat(11), " ".repeat(6), " ".repeat(3));
    for d in 2..=6 {
        row.push_str(&format!("{}{}", " ".repeat(6), d));
    }
    row.push_str("   January");
    assert_eq!(row_text(&canvas, 2).trim_end(), row);
    assert_eq!(row_text(&canvas, 1).chars().nth(22), Some('┬'));
    assert_eq!(row_text(&canvas, 2).chars().nth(22), Some('│'));
}
