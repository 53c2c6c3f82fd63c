use optopodi::channel::RowChannel;
use optopodi::error::Failure;
use optopodi::pipeline::Pipeline;
use optopodi::sink::Print;

fn row(fields: &[&str]) -> Vec<String> {
    fields.iter().map(|f| String::from(*f)).collect()
}

fn text(bytes: Vec<u8>) -> String {
    String::from_utf8(bytes).unwrap()
}

#[test]
fn sink_writes_header_then_rows() {
    let mut sink = Print::new();
    sink.write_header(&row(&["Repository Name", "# of PRs"])).unwrap();
    sink.write_row(&row(&["a", "5"])).unwrap();
    sink.write_row(&row(&["b", "12"])).unwrap();
    assert_eq!(text(sink.into_bytes()), "Repository Name,# of PRs\na,5\nb,12\n");
}

#[test]
fn sink_quotes_fields_that_need_it() {
    let mut sink = Print::new();
    sink.write_header(&row(&["name", "note"])).unwrap();
    sink.write_row(&row(&["a,b", "say \"hi\""])).unwrap();
    sink.write_row(&row(&["line\nbreak", ""])).unwrap();
    assert_eq!(
        text(sink.into_bytes()),
        "name,note\n\"a,b\",\"say \"\"hi\"\"\"\n\"line\nbreak\",\n"
    );
}

#[test]
fn sink_refuses_a_row_of_another_width() {
    let mut sink = Print::new();
    sink.write_header(&row(&["one", "two"])).unwrap();
    assert!(matches!(sink.write_row(&row(&["only"])), Err(Failure::SinkWriteError)));
    assert!(matches!(sink.write_row(&row(&["a", "b", "c"])), Err(Failure::SinkWriteError)));
    sink.write_row(&row(&["a", "b"])).unwrap();
    assert_eq!(text(sink.into_bytes()), "one,two\na,b\n");
}

#[test]
fn sink_needs_one_header() {
    let mut sink = Print::new();
    assert!(matches!(sink.write_row(&row(&["a"])), Err(Failure::SinkWriteError)));
    sink.write_header(&row(&["h"])).unwrap();
    assert!(matches!(sink.write_header(&row(&["h"])), Err(Failure::SinkWriteError)));
    assert_eq!(text(sink.into_bytes()), "h\n");
}

#[test]
fn consumer_drains_the_channel_in_order() {
    let mut channel = RowChannel::new(3);
    channel.try_send(row(&["1", "x"])).unwrap();
    channel.try_send(row(&["2", "y"])).unwrap();
    let mut sink = Print::new();
    sink.write_header(&row(&["n", "s"])).unwrap();
    assert_eq!(sink.consume(&mut channel).unwrap(), false);
    assert_eq!(channel.len(), 0);
    channel.try_send(row(&["3", "z"])).unwrap();
    channel.close_sender();
    assert_eq!(sink.consume(&mut channel).unwrap(), true);
    assert_eq!(text(sink.into_bytes()), "n,s\n1,x\n2,y\n3,z\n");
}

#[test]
fn consumer_stops_at_the_first_bad_row() {
    let mut channel = RowChannel::new(3);
    channel.try_send(row(&["1", "x"])).unwrap();
    channel.try_send(row(&["bad"])).unwrap();
    channel.try_send(row(&["3", "z"])).unwrap();
    let mut sink = Print::new();
    sink.write_header(&row(&["n", "s"])).unwrap();
    assert!(matches!(sink.consume(&mut channel), Err(Failure::SinkWriteError)));
    assert!(!channel.receiver_open());
    assert_eq!(channel.len(), 0);
    assert_eq!(text(sink.into_bytes()), "n,s\n1,x\n");
}

#[test]
fn pipeline_keeps_every_row_in_order() {
    for capacity in [1usize, 2, 3, 10] {
        let mut pipeline = Pipeline::start(&row(&["n", "square"]), capacity);
        let mut expected = String::from("n,square\n");
        for i in 0..7u64 {
            pipeline.send(row(&[&i.to_string(), &(i * i).to_string()])).unwrap();
            expected.push_str(&format!("{},{}\n", i, i * i));
        }
        assert_eq!(text(pipeline.finish(Ok(())).unwrap()), expected);
    }
}

#[test]
fn pipeline_without_rows_is_the_header() {
    let pipeline = Pipeline::start(&row(&["Repository Name", "# of PRs"]), 4);
    assert_eq!(text(pipeline.finish(Ok(())).unwrap()), "Repository Name,# of PRs\n");
}

#[test]
fn pipeline_send_all_stops_at_first_failure() {
    let mut pipeline = Pipeline::start(&row(&["a", "b"]), 1);
    // the bad row is queued; the consumer meets it when the next row needs room
    let outcome = pipeline.send_all(vec![row(&["1", "2"]), row(&["bad"]), row(&["3", "4"]), row(&["5", "6"])]);
    assert!(matches!(outcome, Err(Failure::ChannelClosed)));
    assert!(matches!(pipeline.send(row(&["7", "8"])), Err(Failure::ChannelClosed)));
    assert!(matches!(pipeline.finish(outcome), Err(Failure::SinkWriteError)));
}

#[test]
fn producer_failure_is_the_one_reported() {
    let mut pipeline = Pipeline::start(&row(&["a"]), 2);
    pipeline.send(row(&["1"])).unwrap();
    let key = optopodi::cache::CacheKey::new("q", 4);
    match pipeline.finish(Err(Failure::NetworkError(key))) {
        Err(Failure::NetworkError(k)) => assert_eq!(k.page_index, 4),
        other => panic!("expected the producer's failure, got {:?}", other),
    }
}

#[test]
fn consumer_failure_on_the_last_rows_is_reported() {
    let mut pipeline = Pipeline::start(&row(&["a", "b"]), 5);
    pipeline.send(row(&["1", "2"])).unwrap();
    pipeline.send(row(&["too", "many", "fields"])).unwrap();
    assert!(matches!(pipeline.finish(Ok(())), Err(Failure::SinkWriteError)));
}
