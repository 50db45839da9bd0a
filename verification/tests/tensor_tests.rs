use lightray::engine::{to_engine, EngineValue};
use lightray::tensor::{read_npy, Header, NpyDtype};
use lightray::value::SerializableIValue;

#[test]
fn parse() {
    let h = "{'descr': '<f8', 'fortran_order': False, 'shape': (128,), }";
    assert_eq!(
        Header::parse(h).unwrap(),
        Header {
            descr: NpyDtype::F8,
            fortran_order: false,
            shape: vec![128]
        }
    );
    let h = "{'descr': '<f4', 'fortran_order': True, 'shape': (256,1,128), }";
    let h = Header::parse(h).unwrap();
    assert_eq!(
        h,
        Header {
            descr: NpyDtype::F4,
            fortran_order: true,
            shape: vec![256, 1, 128]
        }
    );
    assert_eq!(
        h.to_string().unwrap(),
        "{'descr': '<f4', 'fortran_order': True, 'shape': (256,1,128,), }"
    );

    let h = Header {
        descr: NpyDtype::I8,
        fortran_order: false,
        shape: vec![],
    };
    assert_eq!(
        h.to_string().unwrap(),
        "{'descr': '<i8', 'fortran_order': False, 'shape': (), }"
    );
}

/// A complete NPY v1 stream for the given header text and payload.
fn npy_stream(header: &str, payload: &[u8]) -> Vec<u8> {
    let mut out: Vec<u8> = Vec::new();
    out.extend_from_slice(b"\x93NUMPY");
    out.push(1);
    out.push(0);
    let hlen = header.len() as u16;
    out.push((hlen & 0xFF) as u8);
    out.push((hlen >> 8) as u8);
    out.extend_from_slice(header.as_bytes());
    out.extend_from_slice(payload);
    out
}

#[test]
fn npy_decode_vector() {
    let bytes = npy_stream(
        "{'descr': '<f4', 'fortran_order': False, 'shape': (3,), }",
        &[0u8; 12],
    );
    let t = read_npy(&bytes).unwrap();
    assert_eq!(t.shape, vec![3]);
    assert_eq!(t.dtype, NpyDtype::F4);
    assert_eq!(t.data.len(), 12);
}

#[test]
fn npy_rejects_fortran_order() {
    let bytes = npy_stream(
        "{'descr': '<f4', 'fortran_order': True, 'shape': (3,), }",
        &[0u8; 12],
    );
    assert_eq!(read_npy(&bytes).unwrap_err(), "fortran order not supported");
}

#[test]
fn npy_rejects_big_endian() {
    let bytes = npy_stream(
        "{'descr': '>f4', 'fortran_order': False, 'shape': (3,), }",
        &[0u8; 12],
    );
    assert_eq!(read_npy(&bytes).unwrap_err(), "big-endian descr");
}

#[test]
fn npy_rejects_unknown_dtype() {
    let bytes = npy_stream(
        "{'descr': '<c16', 'fortran_order': False, 'shape': (3,), }",
        &[0u8; 48],
    );
    assert_eq!(read_npy(&bytes).unwrap_err(), "unrecognized descr");
}

#[test]
fn npy_rejects_bad_magic_and_truncation() {
    assert_eq!(read_npy(b"\x93NUMPY\x01").unwrap_err(), "truncated npy stream");
    assert_eq!(read_npy(b"NOTNPY\x01\x00").unwrap_err(), "magic string mismatch");
    assert_eq!(
        read_npy(b"\x93NUMPY\x07\x00\x00\x00").unwrap_err(),
        "unsupported version"
    );
}

#[test]
fn npy_rejects_size_mismatch() {
    let bytes = npy_stream(
        "{'descr': '<i4', 'fortran_order': False, 'shape': (2,2), }",
        &[0u8; 15],
    );
    assert_eq!(read_npy(&bytes).unwrap_err(), "data size does not match shape");
}

#[test]
fn npy_scalar_shape() {
    let bytes = npy_stream(
        "{'descr': '<i8', 'fortran_order': False, 'shape': (), }",
        &[0u8; 8],
    );
    let t = read_npy(&bytes).unwrap();
    assert_eq!(t.shape, Vec::<i64>::new());
    assert_eq!(t.dtype, NpyDtype::I8);
}

fn tensor_value_of(header: &str, payload: &[u8]) -> SerializableIValue {
    let bytes = npy_stream(header, payload);
    SerializableIValue::TensorNPYBase64(base64::encode(&bytes))
}

#[test]
fn tensor_serialization_vector() {
    let s_tensor = tensor_value_of(
        "{'descr': '<f4', 'fortran_order': False, 'shape': (3,), }",
        &[0u8; 12],
    );
    let tensor_ivalue: EngineValue = to_engine(&s_tensor).unwrap();
    match tensor_ivalue {
        EngineValue::Tensor(tensor_value) => {
            assert_eq!(tensor_value.shape, vec![3]);
            assert_eq!(tensor_value.dtype, NpyDtype::F4);
        }
        _ => panic!("unpacking should be to Tensor"),
    }
}

#[test]
fn tensor_serialization_matrix() {
    let s_tensor = tensor_value_of(
        "{'descr': '<f4', 'fortran_order': False, 'shape': (3,5), }",
        &[0u8; 60],
    );
    let tensor_ivalue: EngineValue = to_engine(&s_tensor).unwrap();
    match tensor_ivalue {
        EngineValue::Tensor(tensor_value) => {
            assert_eq!(tensor_value.shape, vec![3, 5]);
            assert_eq!(tensor_value.dtype, NpyDtype::F4);
        }
        _ => panic!("unpacking should be to Tensor"),
    }
}

#[test]
fn tensor_serialization_tensor3() {
    let s_tensor = tensor_value_of(
        "{'descr': '<f4', 'fortran_order': False, 'shape': (3,5,7), }",
        &[0u8; 420],
    );
    let tensor_ivalue: EngineValue = to_engine(&s_tensor).unwrap();
    match tensor_ivalue {
        EngineValue::Tensor(tensor_value) => {
            assert_eq!(tensor_value.shape, vec![3, 5, 7]);
            assert_eq!(tensor_value.dtype, NpyDtype::F4);
        }
        _ => panic!("unpacking should be to Tensor"),
    }
}

#[test]
fn tensor_serialization_tensor4() {
    let s_tensor = tensor_value_of(
        "{'descr': '<f4', 'fortran_order': False, 'shape': (3,5,7,9), }",
        &[0u8; 3780],
    );
    let tensor_ivalue: EngineValue = to_engine(&s_tensor).unwrap();
    match tensor_ivalue {
        EngineValue::Tensor(tensor_value) => {
            assert_eq!(tensor_value.shape, vec![3, 5, 7, 9]);
            assert_eq!(tensor_value.dtype, NpyDtype::F4);
        }
        _ => panic!("unpacking should be to Tensor"),
    }
}

#[test]
fn tensor_rejects_bad_base64() {
    let s_tensor = SerializableIValue::TensorNPYBase64("!!!not base64!!!".to_string());
    assert!(to_engine(&s_tensor).is_err());
}
