use intcode::puzzle::droid::{nesw, Dir, DroidError, Robot};
use intcode::puzzle::image::{first_visible_pixel, render, Pixel};
use intcode::puzzle::{boost, diagnostic, droid, gravity, image};
use intcode::Fault;

#[test]
fn gravity_runs_on_twelve_and_two() {
    // Adds the cells that noun and verb point to.
    let program = vec![1, 0, 0, 0, 99, 5, 6, 7, 8, 9, 10, 11, 30, 13];
    assert_eq!(Ok(30 + 2), gravity::part1(program.clone()));
    assert_eq!(Ok(6 + 30), gravity::run_on(&program, 6, 12));
    assert_eq!(Err(Fault::UnknownOperation), gravity::part1(vec![7, 0, 0]));
}

#[test]
fn gravity_search_finds_the_first_pair() {
    // Adds the cells that noun and verb point to: only the cells 57 and 90 add
    // up to the target.
    let mut program = vec![1, 0, 0, 0, 99];
    program.resize(100, 8);
    program[90] = 19690000;
    program[57] = 720;
    assert_eq!(Ok(19690720), gravity::run_on(&program, 90, 57));
    assert_eq!(Ok(Some((57, 90))), gravity::part2(program.clone()));
    program[57] = 8;
    assert_eq!(Ok(None), gravity::part2(program));
    assert_eq!(Err(Fault::UnknownOperation), gravity::part2(vec![0]));
}

#[test]
fn diagnostic_reports() {
    // Outputs 0, 0, its input and 0.
    let program = vec![104, 0, 104, 0, 3, 20, 4, 20, 104, 0, 99];
    assert_eq!(Ok(vec![1]), diagnostic::part1(program.clone()));
    assert_eq!(Ok(vec![0, 0, 5, 0]), diagnostic::part2(program.clone()));
    assert_eq!(Ok(vec![0, 0, 1, 0]), boost::part1(program.clone()));
    assert_eq!(Ok(vec![0, 0, 2, 0]), boost::part2(program.clone()));
    assert_eq!(Ok(vec![0, 0, -7, 0]), diagnostic::run_with(program, -7));
    assert_eq!(Ok(vec![]), diagnostic::part1(vec![104, 0, 99]));
    assert_eq!(Err(Fault::NoInput), diagnostic::part1(vec![3, 0, 3, 0, 99]));
    assert_eq!(Err(Fault::InvalidMode), boost::part2(vec![304, 0, 99]));
}

#[test]
fn pixels() {
    assert_eq!(Pixel::Black, Pixel::new('0'));
    assert_eq!(Pixel::White, Pixel::new('1'));
    assert_eq!(Pixel::Transparent, Pixel::new('2'));
    assert_eq!(0, Pixel::Black.value());
    assert_eq!(1, Pixel::White.value());
    assert_eq!(2, Pixel::Transparent.value());
    assert_eq!(' ', Pixel::Black.to_char());
    assert_eq!('#', Pixel::White.to_char());
    assert_eq!('.', Pixel::Transparent.to_char());
    assert!(Pixel::Black.is_visible());
    assert!(Pixel::White.is_visible());
    assert!(!Pixel::Transparent.is_visible());
}

#[test]
fn image_layers() {
    let text: Vec<char> = "0222112222120000".chars().collect();
    let img = image::read_input(&text, 2, 2).unwrap();
    assert_eq!(4, img.len());
    assert_eq!(vec![Pixel::Black, Pixel::Transparent], img[0][0]);
    assert_eq!(vec![Pixel::Transparent, Pixel::Transparent], img[0][1]);
    assert_eq!(vec![Pixel::White, Pixel::Transparent], img[2][1]);
    assert_eq!(Some(Pixel::Black), first_visible_pixel(&img, 0, 0));
    assert_eq!(Some(Pixel::White), first_visible_pixel(&img, 0, 1));
    assert_eq!(Some(Pixel::White), first_visible_pixel(&img, 1, 0));
    assert_eq!(Some(Pixel::Black), first_visible_pixel(&img, 1, 1));
    assert_eq!(Some(vec![vec![' ', '#'], vec!['#', ' ']]), render(&img, 2, 2));

    let hole: Vec<char> = "02221122".chars().collect();
    let img = image::read_input(&hole, 2, 2).unwrap();
    assert_eq!(None, first_visible_pixel(&img, 1, 1));
    assert_eq!(None, render(&img, 2, 2));
    assert_eq!(Some(vec![]), render(&vec![], 0, 3));
}

#[test]
fn image_text_must_fit() {
    let odd: Vec<char> = "01201".chars().collect();
    assert_eq!(None, image::read_input(&odd, 2, 2));
    let strange: Vec<char> = "0123".chars().collect();
    assert_eq!(None, image::read_input(&strange, 2, 2));
    let empty: Vec<char> = vec![];
    assert_eq!(Some(vec![]), image::read_input(&empty, 6, 25));
    let wide: Vec<char> = "012012".chars().collect();
    let img = image::read_input(&wide, 1, 3).unwrap();
    assert_eq!(2, img.len());
    assert_eq!(vec![vec![Pixel::Black, Pixel::White, Pixel::Transparent]], img[1]);
}

#[test]
fn directions() {
    assert_eq!(Dir::S, Dir::N.opposite());
    assert_eq!(Dir::N, Dir::S.opposite());
    assert_eq!(Dir::W, Dir::E.opposite());
    assert_eq!(Dir::E, Dir::W.opposite());
    assert_eq!((3, 5), Dir::step((3, 4), Dir::N));
    assert_eq!((4, 4), Dir::step((3, 4), Dir::E));
    assert_eq!((3, 3), Dir::step((3, 4), Dir::S));
    assert_eq!((2, 4), Dir::step((3, 4), Dir::W));
    assert_eq!([Dir::N, Dir::E, Dir::S, Dir::W], nesw());
    for d in nesw() {
        assert_eq!((-7, 9), Dir::step(Dir::step((-7, 9), d), d.opposite()));
    }
}

/// A droid in a corridor that runs east from the origin for two steps and ends
/// at the oxygen system: the program keeps the droid's x at address 100.
fn corridor() -> Vec<i64> {
    vec![
        // 0: read the command; east goes to 21, west to 37, anything else is a wall
        3, 75, 1008, 75, 4, 76, 1005, 76, 21, 1008, 75, 3, 76, 1005, 76, 37, 104, 0, 1105, 1, 0,
        // 21: east: a wall unless x + 1 < 3
        1001, 74, 1, 77, 1007, 77, 3, 76, 1005, 76, 53, 104, 0, 1105, 1, 0,
        // 37: west: a wall if x - 1 < 0
        1001, 74, -1, 77, 1007, 77, 0, 76, 1006, 76, 53, 104, 0, 1105, 1, 0,
        // 53: take the step, and report the target at x = 2, else floor
        1001, 77, 0, 74, 1008, 74, 2, 76, 1005, 76, 69, 104, 1, 1105, 1, 0,
        // 69
        104, 2, 1105, 1, 0,
        // 74: x, the command, a flag, the next x
        0, 0, 0, 0,
    ]
}

#[test]
fn droid_walks_the_corridor() {
    let mut robot = Robot::new(corridor());
    assert_eq!((0, 0), robot.pos);
    assert_eq!(droid::Tile::Floor, robot.tile);
    assert_eq!(Ok(false), robot.move_(Dir::N));
    assert_eq!(Ok(false), robot.move_(Dir::S));
    assert_eq!(Ok(false), robot.move_(Dir::W));
    assert_eq!((0, 0), robot.pos);
    assert_eq!(Ok(true), robot.move_(Dir::E));
    assert_eq!((1, 0), robot.pos);
    assert_eq!(droid::Tile::Floor, robot.tile);
    assert_eq!(Ok(true), robot.move_(Dir::E));
    assert_eq!((2, 0), robot.pos);
    assert_eq!(droid::Tile::Target, robot.tile);
    assert_eq!(Ok(false), robot.move_(Dir::E));
    assert_eq!((2, 0), robot.pos);
    assert_eq!(droid::Tile::Target, robot.tile);
    assert_eq!(Ok(true), robot.move_(Dir::W));
    assert_eq!((1, 0), robot.pos);
    assert_eq!(droid::Tile::Floor, robot.tile);
}

#[test]
fn droid_without_report() {
    let mut silent = Robot::new(vec![3, 0, 99]);
    assert_eq!(Err(DroidError::NoReport), silent.move_(Dir::N));
    let mut chatty = Robot::new(vec![3, 9, 104, 1, 104, 1, 99]);
    assert_eq!(Err(DroidError::NoReport), chatty.move_(Dir::N));
    let mut strange = Robot::new(vec![3, 9, 104, 3, 99]);
    assert_eq!(Err(DroidError::NoReport), strange.move_(Dir::N));
    let mut broken = Robot::new(vec![3, 9, 98]);
    assert_eq!(
        Err(DroidError::Machine(Fault::UnknownOperation)),
        broken.move_(Dir::N)
    );
    assert_eq!((0, 0), broken.pos);
    // The command numbers: north 1, south 2, west 3, east 4.
    for (d, tile) in [(Dir::N, 1), (Dir::S, 2)] {
        let mut robot = Robot::new(vec![3, 10, 4, 10, 1105, 1, 0, 0, 0, 0, 0]);
        assert_eq!(Ok(true), robot.move_(d));
        assert_eq!(tile == 2, robot.tile == droid::Tile::Target);
    }
    let mut robot = Robot::new(vec![3, 10, 1001, 10, -3, 10, 4, 10, 99, 0, 0]);
    assert_eq!(Ok(false), robot.move_(Dir::W));
    let mut robot = Robot::new(vec![3, 10, 1001, 10, -3, 10, 4, 10, 99, 0, 0]);
    assert_eq!(Ok(true), robot.move_(Dir::E));
}
