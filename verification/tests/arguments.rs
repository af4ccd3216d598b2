use ping_pong::console_arguments::{ConsoleArguments, MultiplicationMethod};
use ping_pong::ping_pong::ping_pong_arguments::PingPongArguments;

#[test]
fn solve_arguments_choose_the_method() {
    let files = vec![String::from("a.txt"), String::from("b.txt")];
    match ConsoleArguments::solve(files.clone(), Some(String::from("out")), true, false) {
        ConsoleArguments::Solve(args) => {
            assert_eq!(args.input_files, files);
            assert_eq!(args.output_file, Some(String::from("out")));
            assert_eq!(args.mul_method, MultiplicationMethod::Naive);
            assert!(!args.verbose);
        }
        ConsoleArguments::Generate(_) => panic!("solve was asked for"),
    }
    match ConsoleArguments::solve(files, None, false, true) {
        ConsoleArguments::Solve(args) => {
            assert_eq!(args.output_file, None);
            assert_eq!(args.mul_method, MultiplicationMethod::Strassen);
            assert!(args.verbose);
        }
        ConsoleArguments::Generate(_) => panic!("solve was asked for"),
    }
}

#[test]
fn generate_arguments_keep_sizes_and_file() {
    match ConsoleArguments::generate(vec![3, 5, 8], String::from("graphs.txt")) {
        ConsoleArguments::Generate(args) => {
            assert_eq!(args.sizes, vec![3, 5, 8]);
            assert_eq!(args.output_file, "graphs.txt");
        }
        ConsoleArguments::Solve(_) => panic!("generate was asked for"),
    }
}

#[test]
fn ping_pong_arguments_keep_the_names() {
    let with = PingPongArguments::new("in.txt", Some(String::from("out.txt")));
    assert_eq!(with.input_file, "in.txt");
    assert_eq!(with.output_file, Some(String::from("out.txt")));
    let without = PingPongArguments::new("in.txt", None);
    assert_eq!(without.output_file, None);
    let both = ping_pong::ping_pong_arguments::PingPongArguments::new("in.txt", "out.txt");
    assert_eq!(both.input_file, "in.txt");
    assert_eq!(both.output_file, "out.txt");
}

#[test]
fn options_without_input_or_with_help_give_nothing() {
    assert!(PingPongArguments::from_options(true, Some(String::from("in")), None).is_none());
    assert!(PingPongArguments::from_options(false, None, Some(String::from("out"))).is_none());
    let args = PingPongArguments::from_options(false, Some(String::from("in")), Some(String::from("out"))).unwrap();
    assert_eq!(args.input_file, "in");
    assert_eq!(args.output_file, Some(String::from("out")));
    let bare = PingPongArguments::from_options(false, Some(String::from("in")), None).unwrap();
    assert_eq!(bare.output_file, None);
}
