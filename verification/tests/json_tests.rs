use lightray::json::{from_json, model_id_from_json, model_id_to_json, semantics_from_json, semantics_to_json, to_json};
use lightray::model::LightrayModelId;
use lightray::semantics::{LightrayIValueSemantic, LightrayModelSemantics};
use lightray::value::{SerializableIValue, TorchScriptInput};

fn sample_input() -> TorchScriptInput {
    TorchScriptInput {
        positional_arguments: vec![
            SerializableIValue::List(vec![
                SerializableIValue::Str("<bos>".to_string()),
                SerializableIValue::Str("call".to_string()),
                SerializableIValue::Str("mom".to_string()),
                SerializableIValue::Str("<eos>".to_string()),
            ]),
            SerializableIValue::Bool(true),
            SerializableIValue::Int(3),
            SerializableIValue::Int(3),
        ],
    }
}

#[test]
fn test_serialization() {
    let torchscript_input = sample_input();
    let serialized = to_json(&torchscript_input);
    let unserialized: TorchScriptInput = from_json(&serialized).unwrap();
    assert_eq!(torchscript_input, unserialized)
}

#[test]
fn core_test_serialization() {
    let torchscript_input = sample_input();
    let serialized = to_json(&torchscript_input);
    let unserialized: TorchScriptInput = from_json(&serialized).unwrap();
    assert_eq!(torchscript_input, unserialized)
}

#[test]
fn test_different_length_verification() {
    let torchscript_input = sample_input();
    let _torchscript_semantic = LightrayModelSemantics {
        positional_semantics: vec![],
    };
    let serialized = to_json(&torchscript_input);
    let unserialized: TorchScriptInput = from_json(&serialized).unwrap();
    assert_eq!(torchscript_input, unserialized)
}

#[test]
fn json_canonical_text() {
    let input = TorchScriptInput {
        positional_arguments: vec![
            SerializableIValue::Int(-7),
            SerializableIValue::Str("hi".to_string()),
        ],
    };
    assert_eq!(
        to_json(&input),
        "{\"positional_arguments\":[{\"Int\":-7},{\"Str\":\"hi\"}]}"
    );
}

#[test]
fn json_round_trip_every_tag() {
    let input = TorchScriptInput {
        positional_arguments: vec![
            SerializableIValue::Null,
            SerializableIValue::Bool(false),
            SerializableIValue::Int(i64::MIN),
            SerializableIValue::Int(i64::MAX),
            SerializableIValue::Double((3.25f64).to_bits()),
            SerializableIValue::Double(f64::NAN.to_bits()),
            SerializableIValue::Str("a \"quoted\" \\ backslash\nnewline\ttab".to_string()),
            SerializableIValue::Str("ünïcødé ✓".to_string()),
            SerializableIValue::Tuple(vec![
                SerializableIValue::Int(1),
                SerializableIValue::Tuple(vec![]),
            ]),
            SerializableIValue::List(vec![]),
            SerializableIValue::Optional(None),
            SerializableIValue::Optional(Some(Box::new(SerializableIValue::Int(9)))),
            SerializableIValue::TensorNPYBase64("AAECAwQ=".to_string()),
        ],
    };
    let text = to_json(&input);
    let back = from_json(&text).unwrap();
    assert_eq!(input, back);
}

#[test]
fn json_double_is_bit_exact() {
    let bits = (0.1f64).to_bits();
    let input = TorchScriptInput {
        positional_arguments: vec![SerializableIValue::Double(bits)],
    };
    let back = from_json(&to_json(&input)).unwrap();
    match back.positional_arguments[0] {
        SerializableIValue::Double(b) => assert_eq!(b, bits),
        _ => panic!("expected a double back"),
    }
}

#[test]
fn json_parser_tolerates_whitespace() {
    let text = "{\"positional_arguments\":\n [{\"List\":[{\"Str\":\"<bos>\"},{\"Str\":\"call\"},{\"Str\":\"mom\"},{\"Str\":\"<eos>\"}]},\n {\"Int\":3},\n {\"Int\":3}]}";
    let parsed = from_json(text).unwrap();
    assert_eq!(parsed.positional_arguments.len(), 3);
    assert_eq!(parsed.positional_arguments[1], SerializableIValue::Int(3));
}

#[test]
fn json_parser_handles_escapes() {
    let text = "{\"positional_arguments\":[{\"Str\":\"a\\n\\t\\\"\\\\\\u0007b\"}]}";
    let parsed = from_json(text).unwrap();
    assert_eq!(
        parsed.positional_arguments[0],
        SerializableIValue::Str("a\n\t\"\\\u{7}b".to_string())
    );
}

#[test]
fn json_parser_rejects_garbage() {
    assert!(from_json("").is_none());
    assert!(from_json("{").is_none());
    assert!(from_json("{\"positional_arguments\":[}").is_none());
    assert!(from_json("{\"wrong_key\":[]}").is_none());
    assert!(from_json("{\"positional_arguments\":[{\"Int\":3}]} trailing").is_none());
    assert!(from_json("{\"positional_arguments\":[{\"Unknown\":3}]}").is_none());
    assert!(from_json("{\"positional_arguments\":[{\"Int\":99999999999999999999}]}").is_none());
    assert!(from_json("{\"positional_arguments\":[{\"Int\":3},]}").is_none());
}

#[test]
fn semantics_json_round_trip() {
    let semantics = LightrayModelSemantics {
        positional_semantics: vec![
            LightrayIValueSemantic::TypeMatch,
            LightrayIValueSemantic::ExactValueMatch,
            LightrayIValueSemantic::SizeMatch,
        ],
    };
    let text = semantics_to_json(&semantics);
    assert_eq!(
        text,
        "{\"positional_semantics\":[\"TypeMatch\",\"ExactValueMatch\",\"SizeMatch\"]}"
    );
    let back = semantics_from_json(&text).unwrap();
    assert_eq!(back.positional_semantics, semantics.positional_semantics);
}

#[test]
fn semantics_json_tolerates_whitespace_and_rejects_unknown() {
    let parsed =
        semantics_from_json("{ \"positional_semantics\" : [ \"TypeMatch\" , \"SizeMatch\" ] }")
            .unwrap();
    assert_eq!(parsed.positional_semantics.len(), 2);
    assert!(semantics_from_json("{\"positional_semantics\":[\"Sometimes\"]}").is_none());
    assert!(semantics_from_json("{\"positional_semantics\":[]}").is_some());
    assert!(semantics_from_json("{\"positional_semantics\":[\"TypeMatch\",]}").is_none());
}

#[test]
fn model_id_json_round_trip() {
    let id = LightrayModelId {
        model_id: 0x1234_5678_9abc_def0_0fed_cba9_8765_4321,
        model_version: 7,
    };
    let text = model_id_to_json(&id);
    assert_eq!(
        text,
        "{\"model_id\":\"12345678-9abc-def0-0fed-cba987654321\",\"model_version\":7}"
    );
    let back = model_id_from_json(&text).unwrap();
    assert_eq!(back, id);
}

#[test]
fn model_id_json_rejects_malformed() {
    assert!(model_id_from_json("{\"model_id\":\"not-a-uuid\",\"model_version\":0}").is_none());
    assert!(model_id_from_json(
        "{\"model_id\":\"12345678-9abc-def0-0fed-cba98765432g\",\"model_version\":0}"
    )
    .is_none());
    assert!(model_id_from_json(
        "{\"model_id\":\"12345678-9abc-def0-0fed-cba987654321\",\"model_version\":70000}"
    )
    .is_none());
    assert!(model_id_from_json(
        "{ \"model_id\" : \"00000000-0000-0000-0000-000000000000\" , \"model_version\" : 65535 }"
    )
    .is_some());
}
