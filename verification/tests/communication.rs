use stm32u083c_dk::communication::{lcd_send, LcdQueue, LCD_QUEUE_LEN};
use stm32u083c_dk::drivers::lcd::LcdMessage;

fn msg(i: u32) -> LcdMessage {
    LcdMessage::Text { text: format!("m{i}"), duration_ms: i }
}

fn drain(q: &mut LcdQueue) -> Vec<LcdMessage> {
    let mut out = Vec::new();
    while let Some(m) = q.try_receive() {
        out.push(m);
    }
    out
}

#[test]
fn sends_in_order_while_room() {
    let mut q = LcdQueue::new();
    lcd_send(&mut q, msg(1));
    lcd_send(&mut q, msg(2));
    assert_eq!(drain(&mut q), vec![msg(1), msg(2)]);
    assert_eq!(q.try_receive(), None);
}

#[test]
fn full_queue_drops_oldest_so_latest_gets_through() {
    let mut q = LcdQueue::new();
    for i in 0..LCD_QUEUE_LEN as u32 {
        lcd_send(&mut q, msg(i));
    }
    lcd_send(&mut q, msg(100));
    lcd_send(&mut q, LcdMessage::Clear);
    let expected: Vec<LcdMessage> = (2..LCD_QUEUE_LEN as u32)
        .map(msg)
        .chain([msg(100), LcdMessage::Clear])
        .collect();
    assert_eq!(drain(&mut q), expected);
}

#[test]
fn empty_queue_receives_nothing() {
    let mut q = LcdQueue::new();
    assert_eq!(q.try_receive(), None);
}
