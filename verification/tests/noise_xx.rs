//! The Noise XX handshake engine against the published
//! `Noise_XX_25519_ChaChaPoly_BLAKE2s` test vector: every handshake
//! message and the first transport messages must match byte for byte.

use liot::handshake::HandshakeXX;
use liot::transport::Transport;

struct TestUnit {
    init_prologue: Vec<u8>,
    init_static: Vec<u8>,
    init_ephemeral: Vec<u8>,
    resp_prologue: Vec<u8>,
    resp_static: Vec<u8>,
    resp_ephemeral: Vec<u8>,
    messages: Vec<(Vec<u8>, Vec<u8>)>,
}

fn vector() -> TestUnit {
    TestUnit {
        init_prologue: hex::decode("5468657265206973206e6f20726967687420616e642077726f6e672e2054686572652773206f6e6c792066756e20616e6420626f72696e672e").unwrap(),
        init_static: hex::decode("8a3165449030548b6fbea439622cf8eccfda9098360f497381f1fc4b239cc629").unwrap(),
        init_ephemeral: hex::decode("868b61a52b9891cb69a723b53834e97cf34a0d65937fcf6ba89a945e22a624e0").unwrap(),
        resp_prologue: hex::decode("5468657265206973206e6f20726967687420616e642077726f6e672e2054686572652773206f6e6c792066756e20616e6420626f72696e672e").unwrap(),
        resp_static: hex::decode("4b29748ce2d03e99813d870c67691402a1f5e09cfded4ccb55111a7aa407ed3b").unwrap(),
        resp_ephemeral: hex::decode("256bdfc5df09e6fc9ff7b31d670a9fbdae5ae5b9f989dba907e77823529c528e").unwrap(),
        messages: vec![
            (
                hex::decode("c0a708f1b57fb2ff42e901cce5871b2a51ff801c067eafcb03d0d7b201340527").unwrap(),
                hex::decode("063bf5a9800084985cb20a711ff8efb4f355eff3df009e8c26e0ecb7affae336c0a708f1b57fb2ff42e901cce5871b2a51ff801c067eafcb03d0d7b201340527").unwrap(),
            ),
            (
                hex::decode("7aa1a8a592db2e6456694064f6564c006f8b2b2481af05036992b088556f3047").unwrap(),
                hex::decode("36c8607da3294b23a7aa3a6ac9ee0650838c0e1fb8849978896f9903b330d9035b08d1a88cb80ea36d06c7ed96b3a6c3c648be604bcebfd82f6cbd79763785003d95c4f29c5104d40121c987aef5b4a485a59238136e732d12193b6b6aa556ae1cecd4a39e4259bc804fa8d8016e5de4be3c2d6e75a75f5fa0cbff614b8cdd88").unwrap(),
            ),
            (
                hex::decode("c51d9b0d96e14f167e83c5154b2daff194ef59a9c09ad818c35ee7c5f476c3ef").unwrap(),
                hex::decode("a5a0d7616374f0a6caff8171c8a6efeebe12a5de59aa9248db14dd9f620b847ad2d752f065d1275990e1716b6bcf6297646145a5950a99e035d302b46a4d9ed5a852cda3490454721cd77dc4b38ac42eda2f03048d173d70797b618400149131").unwrap(),
            ),
            (
                hex::decode("05b9f78b805e8b0cef7230075fe3ccba3058935be39a7d3bc89e3d07f5eeb06a").unwrap(),
                hex::decode("a081a0816332fba78faca67c86d1e3110576e461825f40c55130778ad39a08a03b96c292bb861cabff6839be8b4e96b2").unwrap(),
            ),
            (
                hex::decode("0fb0b0a35d88f162ebd9430681ed4e70f8dda8ae2ce170d0a8284d0676207f84").unwrap(),
                hex::decode("44982688c83a5af167cb3bd3b622993481e4ec1e6944c66ae1b92fcfb934792cecf9228672fdf1a3428d75e1af8f3899").unwrap(),
            ),
        ],
    }
}

#[test]
fn xx_test() {
    let v = vector();
    let mut init = HandshakeXX::init(v.init_ephemeral.clone(), v.init_static.clone(), &v.init_prologue);
    let mut resp = HandshakeXX::resp(v.resp_ephemeral.clone(), v.resp_static.clone(), &v.resp_prologue);
    let mut msgs = v.messages.iter();

    let msg = msgs.next().unwrap();
    let out = init.write_message(&msg.0).unwrap();
    assert_eq!(out, msg.1);
    let payload = resp.read_message(&msg.1).unwrap();
    assert_eq!(payload, msg.0);

    let msg = msgs.next().unwrap();
    let out = resp.write_message(&msg.0).unwrap();
    assert_eq!(out, msg.1);
    let payload = init.read_message(&msg.1).unwrap();
    assert_eq!(payload, msg.0);

    let msg = msgs.next().unwrap();
    let out = init.write_message(&msg.0).unwrap();
    assert_eq!(out, msg.1);
    let payload = resp.read_message(&msg.1).unwrap();
    assert_eq!(payload, msg.0);

    let mut pair: [Transport; 2] = [resp.upgrade().unwrap(), init.upgrade().unwrap()];
    for (count, msg) in msgs.enumerate() {
        // a transport frame is the 8-byte little-endian nonce, then the
        // raw Noise transport ciphertext of the vector
        let frame = pair[count % 2].write_message(&msg.0).unwrap();
        assert_eq!(&frame[8..], msg.1.as_slice());
        let nonce = u64::from_le_bytes(frame[..8].try_into().unwrap());
        assert_eq!(nonce as usize, count / 2);
        let payload = pair[(count + 1) % 2].read_message(&frame).unwrap().unwrap();
        assert_eq!(payload, msg.0);
    }
}
