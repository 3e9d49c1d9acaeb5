use controller::enhancements::glb::{
    find_json_chunk, pad_to_four, replace_json_chunk, GlbError, JsonChunk,
};
use controller::enhancements::json::patch_scene_json;
use controller::enhancements::map_loader::MapMesh;

const JSON: u32 = 0x4E4F534A;
const BIN: u32 = 0x004E4942;

fn chunk(kind: u32, data: &[u8], pad: u8) -> Vec<u8> {
    let mut padded = data.to_vec();
    while padded.len() % 4 != 0 {
        padded.push(pad);
    }
    let mut out = (padded.len() as u32).to_le_bytes().to_vec();
    out.extend_from_slice(&kind.to_le_bytes());
    out.extend_from_slice(&padded);
    out
}

fn container(chunks: &[Vec<u8>]) -> Vec<u8> {
    let body: Vec<u8> = chunks.concat();
    let mut out = b"glTF".to_vec();
    out.extend_from_slice(&2u32.to_le_bytes());
    out.extend_from_slice(&((12 + body.len()) as u32).to_le_bytes());
    out.extend_from_slice(&body);
    out
}

fn u32_at(bytes: &[u8], at: usize) -> u32 {
    u32::from_le_bytes([bytes[at], bytes[at + 1], bytes[at + 2], bytes[at + 3]])
}

#[test]
fn bytes_that_are_no_container_are_left_alone() {
    let mut bytes = b"RIFF\x00\x00".to_vec();
    let before = bytes.clone();
    assert_eq!(MapMesh::patch_glb_json(&mut bytes), Ok(false));
    assert_eq!(bytes, before);
    assert_eq!(find_json_chunk(&bytes), Ok(None));
}

#[test]
fn truncated_containers_are_errors() {
    assert_eq!(find_json_chunk(b"gl"), Err(GlbError::Truncated));
    assert_eq!(find_json_chunk(b"glTF\x02\x00\x00"), Err(GlbError::Truncated));
    // a chunk header cut short
    let mut cut = container(&[]);
    cut.extend_from_slice(&[8, 0, 0, 0, b'J']);
    assert_eq!(find_json_chunk(&cut), Err(GlbError::Truncated));
    // a scene description that claims more bytes than there are
    let mut long = container(&[chunk(JSON, b"{}  ", b' ')]);
    long[12] = 200;
    let mut copy = long.clone();
    assert_eq!(MapMesh::patch_glb_json(&mut copy), Err(GlbError::Truncated));
    assert_eq!(copy, long);
}

#[test]
fn container_without_scene_description_is_left_alone() {
    let mut bytes = container(&[chunk(BIN, &[1, 2, 3, 4, 5], 0)]);
    let before = bytes.clone();
    assert_eq!(find_json_chunk(&bytes), Ok(None));
    assert_eq!(MapMesh::patch_glb_json(&mut bytes), Ok(false));
    assert_eq!(bytes, before);
    let mut header_only = container(&[]);
    assert_eq!(MapMesh::patch_glb_json(&mut header_only), Ok(false));
}

#[test]
fn scene_description_is_found_after_other_chunks() {
    let bytes = container(&[chunk(BIN, &[9; 6], 0), chunk(JSON, b"{\"nodes\":[]}", b' ')]);
    assert_eq!(find_json_chunk(&bytes), Ok(Some(JsonChunk { header: 12 + 8 + 8, length: 12 })));
}

#[test]
fn broken_json_is_an_error_and_changes_nothing() {
    let mut bytes = container(&[chunk(JSON, b"{\"scenes\": [", b' ')]);
    let before = bytes.clone();
    assert_eq!(MapMesh::patch_glb_json(&mut bytes), Err(GlbError::BadJson));
    assert_eq!(bytes, before);
    assert_eq!(patch_scene_json(b"nope"), Err(GlbError::BadJson));
}

#[test]
fn complete_scene_description_is_left_alone() {
    let json = b"{\"nodes\":[{\"name\":\"a\"}],\"scenes\":[{\"nodes\":[0]}]}";
    let mut bytes = container(&[chunk(JSON, json, b' '), chunk(BIN, &[7; 16], 0)]);
    let before = bytes.clone();
    assert_eq!(MapMesh::patch_glb_json(&mut bytes), Ok(false));
    assert_eq!(bytes, before);
    assert_eq!(patch_scene_json(json), Ok(None));
    // a document that is no object has nowhere to put a list
    assert_eq!(patch_scene_json(b"[1, 2]"), Ok(None));
    assert_eq!(patch_scene_json(b"{\"nodes\":[],\"scenes\":[3, \"x\"]}"), Ok(None));
}

#[test]
fn missing_lists_are_put_in_and_the_rest_is_kept() {
    let json = b"{\"asset\":{\"version\":\"2.0\"},\"scenes\":[{\"name\":\"s\"},{\"nodes\":[1]},{}]}";
    let blob: Vec<u8> = (0u8..23).collect();
    let bin = chunk(BIN, &blob, 0);
    let mut bytes = container(&[chunk(JSON, json, b' '), bin.clone()]);
    let before = bytes.clone();
    assert_eq!(MapMesh::patch_glb_json(&mut bytes), Ok(true));

    // header: magic and version kept, total length is the new length
    assert_eq!(&bytes[..8], &before[..8]);
    assert_eq!(u32_at(&bytes, 8) as usize, bytes.len());

    // the scene description is a chunk of its own, padded, and lists the nodes
    let found = find_json_chunk(&bytes).unwrap().unwrap();
    assert_eq!(found.header, 12);
    assert_eq!(found.length % 4, 0);
    let text = &bytes[20..20 + found.length as usize];
    let doc: serde_json::Value = serde_json::from_slice(text).unwrap();
    assert_eq!(doc.get("nodes"), Some(&serde_json::Value::Array(Vec::new())));
    let scenes = doc.get("scenes").unwrap().as_array().unwrap();
    assert_eq!(scenes.len(), 3);
    assert_eq!(scenes[0].get("nodes"), Some(&serde_json::Value::Array(Vec::new())));
    assert_eq!(scenes[0].get("name").and_then(|n| n.as_str()), Some("s"));
    assert_eq!(scenes[1].get("nodes").unwrap().as_array().unwrap().len(), 1);
    assert_eq!(scenes[2].get("nodes"), Some(&serde_json::Value::Array(Vec::new())));
    assert_eq!(doc.get("asset").unwrap().get("version").and_then(|v| v.as_str()), Some("2.0"));

    // the binary chunk follows untouched
    assert_eq!(&bytes[20 + found.length as usize..], &bin[..]);

    // a second pass finds nothing to do
    let once = bytes.clone();
    assert_eq!(MapMesh::patch_glb_json(&mut bytes), Ok(false));
    assert_eq!(bytes, once);
}

#[test]
fn only_the_top_list_missing() {
    let out = patch_scene_json(b"{\"scenes\":[{\"nodes\":[]}]}").unwrap().unwrap();
    assert_eq!(out.len() % 4, 0);
    let doc: serde_json::Value = serde_json::from_slice(&out).unwrap();
    assert!(doc.get("nodes").unwrap().as_array().unwrap().is_empty());
    assert_eq!(out, b"{\"nodes\":[],\"scenes\":[{\"nodes\":[]}]}".to_vec());
    let padded = patch_scene_json(b"{\"a\":1}").unwrap().unwrap();
    assert_eq!(padded, b"{\"a\":1,\"nodes\":[]}  ".to_vec());
}

#[test]
fn padding_fills_with_spaces() {
    assert_eq!(pad_to_four(b"abcde".to_vec()), b"abcde   ".to_vec());
    assert_eq!(pad_to_four(b"abcd".to_vec()), b"abcd".to_vec());
    assert_eq!(pad_to_four(Vec::new()), Vec::<u8>::new());
    assert_eq!(pad_to_four(b"abcdefg".to_vec()), b"abcdefg ".to_vec());
}

#[test]
fn replacing_adjusts_the_total_and_skips_the_old_padding() {
    // an old description of 5 bytes, padded to 8
    let mut bytes = container(&[chunk(BIN, &[1, 2, 3, 4], 0)]);
    let header = bytes.len();
    bytes.extend_from_slice(&5u32.to_le_bytes());
    bytes.extend_from_slice(&JSON.to_le_bytes());
    bytes.extend_from_slice(b"[1,2]\0\0\0");
    bytes.extend_from_slice(&chunk(BIN, &[5, 6, 7, 8], 0));
    let total = bytes.len() as u32;
    bytes[8..12].copy_from_slice(&total.to_le_bytes());
    let found = find_json_chunk(&bytes).unwrap().unwrap();
    assert_eq!(found, JsonChunk { header, length: 5 });

    let out = replace_json_chunk(&bytes, &found, b"[1 , 2 , 3 ]");
    let mut expect = bytes[..8].to_vec();
    expect.extend_from_slice(&(total + 12 - 8).to_le_bytes());
    expect.extend_from_slice(&bytes[12..header]);
    expect.extend_from_slice(&12u32.to_le_bytes());
    expect.extend_from_slice(&JSON.to_le_bytes());
    expect.extend_from_slice(b"[1 , 2 , 3 ]");
    expect.extend_from_slice(&chunk(BIN, &[5, 6, 7, 8], 0));
    assert_eq!(out, expect);
}
