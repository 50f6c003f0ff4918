use ripparallel::command::{parse_command, pre_parse_command};
use ripparallel::framing::{Accumulator, ExecutionReader, FileWork};
use ripparallel::jobs::{Broker, Message};
use ripparallel::ordering::WaitingRoom;
use ripparallel::shell::generate_end_bytes;

/// What a shell prints on stdout for the commands used here, followed by
/// the marker, as the persistent shell does.
fn shell_stdout(command: &str, marker: &[u8; 16]) -> Vec<u8> {
    let word = command.rsplit("echo ").next().unwrap();
    let mut raw = format!("{}\n", word).into_bytes();
    raw.extend_from_slice(marker);
    raw
}

/// Frames the raw stdout of a job in reads of `chunk` bytes.
fn frame(raw: &[u8], marker: &[u8; 16], chunk: usize) -> Vec<u8> {
    let mut reader = ExecutionReader::new();
    for piece in raw.chunks(chunk) {
        let step = reader.read(piece, marker);
        assert!(matches!(step.work, FileWork::Nothing));
        if step.complete {
            break;
        }
    }
    match reader.into_output() {
        Accumulator::InMemory(v) => v,
        Accumulator::Empty => Vec::new(),
        Accumulator::Spilled(_) => panic!("small output spilled"),
    }
}

/// Runs the input through the library with results completing in
/// `completion` order, and returns what reaches the output.
fn run(input: &str, words: &[&str], keep_order: bool, completion: &[usize]) -> String {
    let tokens = pre_parse_command(&words.iter().map(|w| w.to_string()).collect(), false);
    let marker = generate_end_bytes();
    let mut broker = Broker::new(completion.len());
    let mut jobs = Vec::new();
    for line in input.lines() {
        match broker.number_line(line.to_string()) {
            Message::Job((seq, line)) => jobs.push((seq, parse_command(&tokens, line))),
            Message::Quit => panic!("a line became a quit"),
        }
    }
    let mut room = WaitingRoom::new();
    let mut out = Vec::new();
    for &i in completion {
        let (seq, command) = &jobs[i];
        let bytes = frame(&shell_stdout(command, &marker), &marker, 5);
        if keep_order {
            for b in room.serve_customer(*seq, bytes) {
                out.extend(b);
            }
        } else {
            out.extend(bytes);
        }
    }
    String::from_utf8(out).unwrap()
}

#[test]
fn one_worker_in_order() {
    assert_eq!(run("echo a\necho b\necho c\n", &["{}"], true, &[0, 1, 2]), "a\nb\nc\n");
}

#[test]
fn three_workers_completing_out_of_order_keep_order() {
    for completion in [[2, 0, 1], [1, 2, 0], [2, 1, 0]] {
        assert_eq!(
            run("echo a\necho b\necho c\n", &["{}"], true, &completion),
            "a\nb\nc\n"
        );
    }
}

#[test]
fn without_ordering_the_fast_job_may_come_first() {
    let out = run("sleep 1; echo slow\necho fast\n", &["{}"], false, &[1, 0]);
    assert_eq!(out, "fast\nslow\n");
    let ordered = run("sleep 1; echo slow\necho fast\n", &["{}"], true, &[1, 0]);
    assert_eq!(ordered, "slow\nfast\n");
}
