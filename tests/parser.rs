use pulse_sinks::model::{Diagnostic, Listing};
use pulse_sinks::parser::{parse_sink_inputs, parse_sinks};

const SINKS: &str = "2 sink(s) available.
  * index: 0
\tname: <alsa_output.pci-0000_00_1f.3.analog-stereo>
\tdriver: <module-alsa-card.c>
\tstate: RUNNING
\tproperties:
\t\tdevice.description = \"Built-in Audio\"
\t\tdevice.class = \"sound\"
    index: 1
\tname: <bluez_sink.AA_BB>
\tdriver: <module-bluez5-device.c>
\tproperties:
\t\tdevice.description = \"Headphones\"
";

const INPUTS: &str = "1 sink input(s) available.
    index: 42
\tdriver: <protocol-native.c>
\tstate: RUNNING
\tsink: 0 <alsa_output.pci-0000_00_1f.3.analog-stereo>
\tproperties:
\t\tmedia.name = \"Spotify\"
\t\tapplication.name = \"Spotify\"
\t\tapplication.process.binary = \"spotify\"
";

#[test]
fn parses_two_sinks() {
    let (sinks, diagnostics) = parse_sinks(SINKS);
    assert_eq!(sinks.len(), 2);
    assert_eq!(sinks[0].index, 0);
    assert_eq!(sinks[0].name, "alsa_output.pci-0000_00_1f.3.analog-stereo");
    assert_eq!(sinks[0].description, "Built-in Audio");
    assert!(sinks[0].is_default);
    assert_eq!(sinks[1].index, 1);
    assert_eq!(sinks[1].name, "bluez_sink.AA_BB");
    assert_eq!(sinks[1].description, "Headphones");
    assert!(!sinks[1].is_default);
    assert!(diagnostics.is_empty());
}

#[test]
fn parses_one_sink_input() {
    let (inputs, diagnostics) = parse_sink_inputs(INPUTS);
    assert_eq!(inputs.len(), 1);
    assert_eq!(inputs[0].index, 42);
    assert_eq!(inputs[0].state, "RUNNING");
    assert_eq!(inputs[0].sink_index, 0);
    assert_eq!(inputs[0].media, "Spotify");
    assert_eq!(inputs[0].app, "spotify");
    assert!(diagnostics.is_empty());
}

#[test]
fn empty_text_gives_no_records() {
    let (sinks, d1) = parse_sinks("");
    let (inputs, d2) = parse_sink_inputs("");
    assert!(sinks.is_empty() && d1.is_empty());
    assert!(inputs.is_empty() && d2.is_empty());
}

#[test]
fn trailing_partial_group_is_discarded() {
    let text = format!("{}    index: 2\n\tname: <usb_sink>\n", SINKS);
    let (sinks, diagnostics) = parse_sinks(&text);
    assert_eq!(sinks.len(), 2);
    assert_eq!(
        diagnostics,
        vec![Diagnostic::PartialParse { listing: Listing::Sinks, leftover: 2 }]
    );
}

#[test]
fn malformed_index_drops_its_group() {
    let text = "  * index: zero\n name: <a>\n device.description = \"A\"\n index: 7\n name: <b>\n device.description = \"B\"\n";
    let (sinks, diagnostics) = parse_sinks(text);
    assert_eq!(sinks.len(), 1);
    assert_eq!(sinks[0].index, 7);
    assert_eq!(sinks[0].name, "b");
    assert_eq!(
        diagnostics,
        vec![Diagnostic::RecordDropped { listing: Listing::Sinks, group: 0 }]
    );
}

#[test]
fn signed_or_oversized_index_is_malformed() {
    let text = "index: +3\nname: <a>\ndevice.description = \"A\"\nindex: 4294967296\nname: <b>\ndevice.description = \"B\"\nindex: 4294967295\nname: <c>\ndevice.description = \"C\"\n";
    let (sinks, diagnostics) = parse_sinks(text);
    assert_eq!(sinks.len(), 1);
    assert_eq!(sinks[0].index, 4294967295);
    assert_eq!(diagnostics.len(), 2);
}

#[test]
fn lines_out_of_order_drop_the_group() {
    let text = "name: <a>\nindex: 1\ndevice.description = \"A\"\n";
    let (sinks, diagnostics) = parse_sinks(text);
    assert!(sinks.is_empty());
    assert_eq!(
        diagnostics,
        vec![Diagnostic::RecordDropped { listing: Listing::Sinks, group: 0 }]
    );
}

#[test]
fn record_count_equals_complete_groups() {
    let mut text = String::new();
    for i in 0..4 {
        text.push_str(&format!(
            "    index: {}\n\tstate: CORKED\n\tsink: 1 <x>\n\t\tmedia.name = \"m{}\"\n\t\tapplication.process.binary = \"a{}\"\n",
            i, i, i
        ));
    }
    text.push_str("    index: 9\n\tstate: RUNNING\n");
    let (inputs, diagnostics) = parse_sink_inputs(&text);
    assert_eq!(inputs.len(), 4);
    assert_eq!(inputs[3].media, "m3");
    assert_eq!(inputs[3].app, "a3");
    assert_eq!(
        diagnostics,
        vec![Diagnostic::PartialParse { listing: Listing::SinkInputs, leftover: 2 }]
    );
}

#[test]
fn names_and_descriptions_lose_their_delimiters() {
    let text = "index: 3\nname: <<odd>>  \ndevice.description =   \"\"Quoted <x>\"\"\r\n";
    let (sinks, _) = parse_sinks(text);
    assert_eq!(sinks.len(), 1);
    assert_eq!(sinks[0].name, "odd");
    assert_eq!(sinks[0].description, "Quoted <x");
}

#[test]
fn missing_state_drops_a_stream() {
    let text = "index: 1\nstate:\nsink: 0\nmedia.name = \"m\"\napplication.process.binary = \"a\"\n";
    let (inputs, diagnostics) = parse_sink_inputs(text);
    assert!(inputs.is_empty());
    assert_eq!(
        diagnostics,
        vec![Diagnostic::RecordDropped { listing: Listing::SinkInputs, group: 0 }]
    );
}

#[test]
fn description_without_equals_is_malformed() {
    let text = "index: 1\nname: <a>\ndevice.description \"A\"\n";
    let (sinks, diagnostics) = parse_sinks(text);
    assert!(sinks.is_empty());
    assert_eq!(diagnostics.len(), 1);
}
