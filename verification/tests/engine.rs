use xorcism::Xorcism;

#[test]
fn ice_enciphers_hello() {
    let mut engine = Xorcism::new(b"ice");
    let cipher = engine.munge(b"Hello");
    assert_eq!(cipher, vec![0x21, 0x06, 0x09, 0x05, 0x0c]);
    assert_eq!(cipher.len(), 5);
}

#[test]
fn ice_deciphers_hello_with_a_fresh_engine() {
    let cipher = Xorcism::new(b"ice").munge(b"Hello");
    let plain = Xorcism::new(b"ice").munge(&cipher);
    assert_eq!(plain, b"Hello".to_vec());
}

#[test]
fn each_byte_meets_the_key_byte_at_its_index_modulo_the_key_length() {
    let key = b"ice";
    let plain = b"Hello";
    let cipher = Xorcism::new(key).munge(plain);
    for i in 0..plain.len() {
        assert_eq!(cipher[i], plain[i] ^ key[i % 3]);
    }
}

#[test]
fn munge_in_place_enciphers_hello() {
    let mut engine = Xorcism::new(b"ice");
    let mut data = *b"Hello";
    engine.munge_in_place(&mut data);
    assert_eq!(data, [0x21, 0x06, 0x09, 0x05, 0x0c]);
}

#[test]
fn munge_and_munge_in_place_agree() {
    let input = b"The quick brown fox jumps over the lazy dog";
    let mut a = Xorcism::new(b"forsooth");
    let mut b = a.clone();
    let out = a.munge(input);
    let mut buf = input.to_vec();
    b.munge_in_place(&mut buf);
    assert_eq!(out, buf);
    assert_eq!(a.cursor(), b.cursor());
}

#[test]
fn a_second_engine_at_cursor_zero_restores_the_input() {
    let key = [0x00, 0xff, 0x80, 0x7f, 0x01];
    let input: Vec<u8> = (0..=255).collect();
    let cipher = Xorcism::new(&key).munge(&input);
    assert_ne!(cipher, input);
    let plain = Xorcism::new(&key).munge(&cipher);
    assert_eq!(plain, input);
}

#[test]
fn round_trip_in_place() {
    let key = b"secret";
    let mut data = b"Spiderman! It's spiderman! Not a bird, or a plane, or a fireman! Just spiderman!"
        .to_vec();
    let original = data.clone();
    Xorcism::new(key).munge_in_place(&mut data);
    assert_ne!(data, original);
    Xorcism::new(key).munge_in_place(&mut data);
    assert_eq!(data, original);
}

#[test]
fn same_input_twice_on_one_engine_differs() {
    let mut engine = Xorcism::new(b"xyz");
    let first = engine.munge(b"ab");
    let second = engine.munge(b"ab");
    assert_eq!(first, vec![b'a' ^ b'x', b'b' ^ b'y']);
    assert_eq!(second, vec![b'a' ^ b'z', b'b' ^ b'x']);
    assert_ne!(first, second);
}

#[test]
fn same_input_twice_in_place_differs() {
    let mut engine = Xorcism::new(b"xyz");
    let mut first = *b"ab";
    let mut second = *b"ab";
    engine.munge_in_place(&mut first);
    engine.munge_in_place(&mut second);
    assert_ne!(first, second);
}

#[test]
fn same_input_twice_is_the_same_when_its_length_is_a_multiple_of_the_key_length() {
    let mut engine = Xorcism::new(b"xyz");
    let first = engine.munge(b"abcdef");
    assert_eq!(engine.cursor(), 0);
    let second = engine.munge(b"abcdef");
    assert_eq!(first, second);
}

#[test]
fn same_input_twice_is_the_same_when_the_key_repeats_under_it() {
    let mut engine = Xorcism::new(b"kkkk");
    let first = engine.munge(b"abc");
    assert_eq!(engine.cursor(), 3);
    let second = engine.munge(b"abc");
    assert_eq!(first, second);
}

#[test]
fn empty_buffer_leaves_the_cursor_unchanged() {
    let mut engine = Xorcism::new(b"abcde");
    engine.munge_in_place(&mut []);
    assert_eq!(engine.cursor(), 0);
    let mut two = [0u8; 2];
    engine.munge_in_place(&mut two);
    assert_eq!(engine.cursor(), 2);
    engine.munge_in_place(&mut []);
    assert_eq!(engine.cursor(), 2);
    let out = engine.munge(&[]);
    assert!(out.is_empty());
    assert_eq!(engine.cursor(), 2);
}

#[test]
fn single_byte_key_xors_every_byte_with_that_byte() {
    let mut engine = Xorcism::new(b"a");
    let input = b"every byte, wherever it stands";
    let out = engine.munge(input);
    assert_eq!(out.len(), input.len());
    for i in 0..input.len() {
        assert_eq!(out[i], input[i] ^ b'a');
    }
    assert_eq!(engine.cursor(), 0);
    let mut one = [b'a'];
    engine.munge_in_place(&mut one);
    assert_eq!(one, [0]);
    assert_eq!(engine.cursor(), 0);
}

#[test]
fn new_starts_at_the_first_key_byte() {
    let key = b"abc";
    let engine = Xorcism::new(key);
    assert_eq!(engine.cursor(), 0);
    assert_eq!(engine.key(), b"abc");
}

#[test]
fn cursor_advances_by_the_length_modulo_the_key_length() {
    let mut engine = Xorcism::new(b"abcde");
    let _ = engine.munge(&[0; 3]);
    assert_eq!(engine.cursor(), 3);
    let _ = engine.munge(&[0; 4]);
    assert_eq!(engine.cursor(), 2);
    let mut buf = [0u8; 13];
    engine.munge_in_place(&mut buf);
    assert_eq!(engine.cursor(), 0);
}

#[test]
fn zeros_come_out_as_the_key_repeated() {
    let mut engine = Xorcism::new(b"abc");
    let out = engine.munge(&[0; 8]);
    assert_eq!(out, b"abcabcab".to_vec());
    let out = engine.munge(&[0; 4]);
    assert_eq!(out, b"cabc".to_vec());
}

#[test]
fn key_longer_than_data() {
    let mut engine = Xorcism::new(b"a long key indeed");
    let out = engine.munge(b"hi");
    assert_eq!(out, vec![b'h' ^ b'a', b'i' ^ b' ']);
    assert_eq!(engine.cursor(), 2);
}

#[test]
fn chunks_give_the_same_bytes_as_the_whole() {
    let input = b"one continuous stream of bytes";
    let whole = Xorcism::new(b"wxyz!").munge(input);
    for cut in 0..=input.len() {
        let mut engine = Xorcism::new(b"wxyz!");
        let mut pieces = engine.munge(&input[..cut]);
        pieces.extend(engine.munge(&input[cut..]));
        assert_eq!(pieces, whole);
        assert_eq!(engine.cursor(), input.len() % 5);
    }
}

#[test]
fn a_clone_keeps_the_cursor_and_then_goes_its_own_way() {
    let mut engine = Xorcism::new(b"abc");
    let _ = engine.munge(&[0; 2]);
    let mut copy = engine.clone();
    assert_eq!(copy.cursor(), 2);
    assert_eq!(copy.key(), b"abc");
    let from_copy = copy.munge(&[0; 2]);
    assert_eq!(from_copy, b"ca".to_vec());
    assert_eq!(copy.cursor(), 1);
    assert_eq!(engine.cursor(), 2);
    let from_engine = engine.munge(&[0; 2]);
    assert_eq!(from_engine, from_copy);
}

#[test]
fn munge_does_not_change_its_input() {
    let input = b"left alone".to_vec();
    let out = Xorcism::new(b"k").munge(&input);
    assert_eq!(input, b"left alone".to_vec());
    assert_ne!(out, input);
}
