use avcscope::args::read_args;
use avcscope::args::Request;

fn read(args: &[&str]) -> Request {
    read_args(&args.iter().map(|a| a.to_string()).collect())
}

fn show(demo: bool, file: Option<&str>) -> Request {
    Request::Show(demo, file.map(|f| f.to_string()))
}

#[test]
fn nothing_is_asked_for() {
    assert_eq!(read(&[]), show(false, None));
    assert_eq!(read(&["what", "--else", "-x"]), show(false, None));
}

#[test]
fn the_demo_and_files() {
    assert_eq!(read(&["--demo"]), show(true, None));
    assert_eq!(read(&["--file", "a"]), show(false, Some("a")));
    assert_eq!(read(&["--file=a", "--demo"]), show(true, Some("a")));
    assert_eq!(read(&["--file="]), show(false, Some("")));
    assert_eq!(read(&["--file=--file=a"]), show(false, Some("a")));
    assert_eq!(read(&["--file=a", "--file", "b"]), show(false, Some("b")));
    assert_eq!(read(&["--file", "a", "--file=b"]), show(false, Some("b")));
    assert_eq!(read(&["--file", "--demo"]), show(false, Some("--demo")));
    assert_eq!(read(&["--file", "--help", "x"]), show(false, Some("--help")));
    assert_eq!(read(&["--file=a", "--file"]), show(false, None));
}

#[test]
fn usage_and_version() {
    assert_eq!(read(&["--demo", "-h", "--version"]), Request::Usage);
    assert_eq!(read(&["--help"]), Request::Usage);
    assert_eq!(read(&["--file", "x", "--version", "--help"]), Request::Version);
}
