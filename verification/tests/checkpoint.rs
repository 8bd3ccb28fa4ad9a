use ullis::checkpoint::{
    apply_packed, f32_to_le, frame, lay_out, le_to_f32, load, needs_grids, read_header,
    read_payload, read_tensor, split_dots, tensor_bytes, FrameError, Header, LoadedTensor,
    NamedBlob, PackedPlane, TensorMeta, ALIGNMENT, MAGIC,
};
use ullis::config::TrainConfig;
use ullis::tokenizer::BpeTokenizer;

fn tokenizer() -> BpeTokenizer {
    BpeTokenizer {
        pieces: Vec::new(),
        pad_id: 0,
        bos_id: 1,
        eos_id: 2,
        unk_id: 3,
    }
}

fn blobs() -> Vec<(String, NamedBlob)> {
    vec![
        (
            "norm.weight".to_string(),
            NamedBlob::F32 {
                data: vec![1.0_f32.to_bits(), (-2.5_f32).to_bits()],
                shape: vec![2],
            },
        ),
        (
            "blocks.0.kan.code_base".to_string(),
            NamedBlob::Packed {
                bytes: vec![0x1b, 0x02],
                shape: vec![2, 3],
            },
        ),
        (
            "embed".to_string(),
            NamedBlob::I8 {
                codes: vec![1, 255],
                scale: vec![0.5_f32.to_bits(), 0.25_f32.to_bits()],
                shape: vec![2, 1],
            },
        ),
    ]
}

#[test]
fn numbers_survive_their_bytes() {
    let words = vec![0, 1, 0x3f80_0000, u32::MAX];
    let bytes = f32_to_le(&words);
    assert_eq!(bytes[8..12], [0, 0, 0x80, 0x3f]);
    assert_eq!(le_to_f32(&bytes), words);
}

#[test]
fn a_frame_gives_back_its_header_and_payload() {
    let file = frame(b"{\"a\":1}", &[9, 8, 7]);
    assert_eq!(file[..8], MAGIC);
    assert_eq!(MAGIC, *b"ULLIS03\n");
    assert_eq!(read_header(&file).unwrap(), b"{\"a\":1}");
    assert_eq!(read_payload(&file).unwrap(), &[9, 8, 7]);
    assert_eq!((file.len() - 3) % ALIGNMENT, 0);
}

#[test]
fn tensors_read_back_as_they_were_written() {
    let (metas, payload) = lay_out(blobs());
    assert_eq!(metas.len(), 3);
    assert_eq!(metas[0].offset, 0);
    assert_eq!(metas[0].nbytes, 8);
    assert!(matches!(
        read_tensor(&payload, &metas[0]).unwrap(),
        LoadedTensor::Numbers(d) if d == vec![1.0_f32.to_bits(), (-2.5_f32).to_bits()]
    ));
    assert!(matches!(
        read_tensor(&payload, &metas[1]).unwrap(),
        LoadedTensor::Packed { bytes, count } if bytes == vec![0x1b, 0x02] && count == 6
    ));
    assert!(matches!(
        read_tensor(&payload, &metas[2]).unwrap(),
        LoadedTensor::Embed { codes, scale } if codes == vec![1, 255]
            && scale == vec![0.5_f32.to_bits(), 0.25_f32.to_bits()]
    ));
    let header = Header {
        engine: "ullis".to_string(),
        config: TrainConfig::default(),
        tokenizer: tokenizer(),
        phase: 3,
        packed: true,
        tensors: metas,
    };
    let loaded = load(&payload, header).unwrap();
    assert_eq!(loaded.tensors.len(), 3);
    assert_eq!(loaded.phase, 3);
}

#[test]
fn each_frame_error_has_its_cause() {
    assert_eq!(read_header(&[1, 2, 3]).unwrap_err(), FrameError::Truncated);
    let mut file = frame(b"{}", &[]);
    file[0] = 0;
    assert_eq!(read_header(&file).unwrap_err(), FrameError::BadMagic);
    let meta = TensorMeta {
        name: "x".to_string(),
        dtype: "f32".to_string(),
        shape: vec![1],
        offset: 4,
        nbytes: 8,
        packed: false,
    };
    assert_eq!(
        tensor_bytes(&[0; 8], &meta).unwrap_err(),
        FrameError::TensorOverrun
    );
    let embed = TensorMeta {
        name: "embed".to_string(),
        dtype: "i8".to_string(),
        shape: vec![100, 4],
        offset: 0,
        nbytes: 8,
        packed: false,
    };
    assert_eq!(
        read_tensor(&[0; 8], &embed).unwrap_err(),
        FrameError::EmbedOverrun
    );
}

#[test]
fn packed_names_lead_to_their_planes() {
    assert_eq!(split_dots("a..b"), vec!["a", "", "b"]);
    for (name, plane) in [
        ("blocks.1.kan.packed_base", PackedPlane::Base),
        ("blocks.1.kan.packed_shared", PackedPlane::Shared),
        ("blocks.1.kan.packed_routed", PackedPlane::Routed),
        ("blocks.1.kan.other", PackedPlane::Unknown),
    ] {
        let target = apply_packed(name, 2).unwrap();
        assert_eq!((target.block, target.plane), (1, plane));
    }
    assert!(apply_packed("blocks.7.kan.code_base", 2).is_none());
    assert!(apply_packed("embed", 2).is_none());
}

#[test]
fn old_files_need_their_grids_rebuilt() {
    let (metas, _) = lay_out(blobs());
    assert!(needs_grids(&metas));
    let (metas, _) = lay_out(vec![(
        "blocks.0.kan.inv_widths".to_string(),
        NamedBlob::F32 {
            data: vec![0],
            shape: vec![1],
        },
    )]);
    assert!(!needs_grids(&metas));
}
