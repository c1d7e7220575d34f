use corus_v2::contrib::ondemand::OnDemand;

#[test]
fn ondemand_renders_in_blocks() {
    let mut od = OnDemand::new();
    let mut renders = 0;
    let mut out = vec![];
    for _ in 0..7 {
        out.push(od.process(|buf: &mut Vec<i32>| {
            renders += 1;
            assert!(buf.is_empty());
            buf.extend_from_slice(&[renders * 10, renders * 10 + 1, renders * 10 + 2]);
        }));
    }
    assert_eq!(out, vec![10, 11, 12, 20, 21, 22, 30]);
    assert_eq!(renders, 3);
}
