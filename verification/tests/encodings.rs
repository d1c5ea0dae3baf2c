use ciid::encodings::to_sortable_base_16;

#[test]
fn test_empty() {
    let data = vec![];
    let encoded = to_sortable_base_16(&data);
    assert_eq!(encoded, "");
}

#[test]
fn test_all_single_byte_inputs() {
    let encoded = (0..=255)
        .into_iter()
        .map(|input| to_sortable_base_16(&vec![input]))
        .collect::<Vec<_>>();

    // all 256 expected pairs, flattened in order: "aa" for 0 up to "pp"
    // for 255
    let table = "aaabacadaeafagahaiajakalamanaoapbabbbcbdbebfbgbhbibjbkblbmbnbobp\
                 cacbcccdcecfcgchcicjckclcmcncocpdadbdcdddedfdgdhdidjdkdldmdndodp\
                 eaebecedeeefegeheiejekelemeneoepfafbfcfdfefffgfhfifjfkflfmfnfofp\
                 gagbgcgdgegfggghgigjgkglgmgngogphahbhchdhehfhghhhihjhkhlhmhnhohp\
                 iaibicidieifigihiiijikiliminioipjajbjcjdjejfjgjhjijjjkjljmjnjojp\
                 kakbkckdkekfkgkhkikjkkklkmknkokplalblcldlelflglhliljlklllmlnlolp\
                 mambmcmdmemfmgmhmimjmkmlmmmnmompnanbncndnenfngnhninjnknlnmnnnonp\
                 oaobocodoeofogohoiojokolomonoooppapbpcpdpepfpgphpipjpkplpmpnpopp";
    let expected = (0..256)
        .map(|i| &table[2 * i..2 * i + 2])
        .collect::<Vec<_>>();

    assert_eq!(encoded, expected);
}

#[test]
fn test_sorted_multi_byte() {
    // byte-sequence order and encoded-string order agree across lengths
    let inputs: Vec<Vec<u8>> = vec![
        vec![],
        vec![0x00],
        vec![0x00, 0xff],
        vec![0x01],
        vec![0x01, 0x00],
        vec![0x10, 0x20, 0x30],
        vec![0xff],
    ];
    let encoded = inputs
        .iter()
        .map(|input| to_sortable_base_16(input))
        .collect::<Vec<_>>();

    let mut sorted = encoded.clone();
    sorted.sort();

    assert_eq!(encoded, sorted);
}

#[test]
fn test_sorted() {
    let encoded = (0..=255)
        .into_iter()
        .map(|input| to_sortable_base_16(&vec![input]))
        .collect::<Vec<_>>();

    let mut sorted = encoded.clone();
    sorted.sort();

    assert_eq!(encoded, sorted);
}
