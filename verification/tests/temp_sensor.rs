use stm32u083c_dk::drivers::temp_sensor::{
    check_whoami, i16_from_le_bytes, I2cError, I2cRequest, MeasureOutcome, Measurement,
    Stts22hError, REG_CTRL, REG_SOFTWARE_RESET, REG_STATUS,
};

/// Runs a measurement against a scripted bus; returns the requests made and the result.
fn run(mut replies: impl FnMut(&I2cRequest) -> Result<[u8; 2], I2cError>) -> (Vec<I2cRequest>, Result<i16, Stts22hError>) {
    let mut m = Measurement::start();
    let mut log = Vec::new();
    loop {
        let req = m.request();
        log.push(req);
        match m.on_reply(replies(&req)) {
            MeasureOutcome::Next(n) => m = n,
            MeasureOutcome::Done(r) => return (log, r),
        }
    }
}

#[test]
fn whoami_check() {
    assert_eq!(check_whoami(Ok(0xA0)), Ok(()));
    assert_eq!(check_whoami(Ok(0x33)), Err(Stts22hError::WhoAmI(0x33)));
    assert_eq!(check_whoami(Err(I2cError::Nack)), Err(Stts22hError::I2c(I2cError::Nack)));
}

#[test]
fn raw_temperature_is_little_endian_signed() {
    assert_eq!(i16_from_le_bytes([0x34, 0x12]), 0x1234);
    assert_eq!(i16_from_le_bytes([0xC4, 0x09]), 2500);
    assert_eq!(i16_from_le_bytes([0xFF, 0xFF]), -1);
    assert_eq!(i16_from_le_bytes([0x00, 0x80]), i16::MIN);
    assert_eq!(i16_from_le_bytes([0x18, 0xFC]), -1000);
}

#[test]
fn measurement_sequence() {
    let mut busy_polls = 2;
    let (log, r) = run(|req| match req {
        I2cRequest::ReadReg { .. } => {
            if busy_polls > 0 {
                busy_polls -= 1;
                Ok([0x01, 0])
            } else {
                Ok([0x00, 0])
            }
        }
        I2cRequest::ReadTemperature => Ok([0xC4, 0x09]),
        I2cRequest::WriteReg { .. } => Ok([0, 0]),
    });
    assert_eq!(r, Ok(2500));
    assert_eq!(
        log,
        vec![
            I2cRequest::WriteReg { reg: REG_SOFTWARE_RESET, value: 0x02 },
            I2cRequest::WriteReg { reg: REG_SOFTWARE_RESET, value: 0x00 },
            I2cRequest::WriteReg { reg: REG_CTRL, value: 0x09 },
            I2cRequest::ReadReg { reg: REG_STATUS },
            I2cRequest::ReadReg { reg: REG_STATUS },
            I2cRequest::ReadReg { reg: REG_STATUS },
            I2cRequest::ReadTemperature,
        ]
    );
}

#[test]
fn always_busy_times_out_after_201_polls() {
    let (log, r) = run(|req| match req {
        I2cRequest::ReadReg { .. } => Ok([0xFF, 0]),
        _ => Ok([0, 0]),
    });
    assert_eq!(r, Err(Stts22hError::Timeout));
    let polls = log.iter().filter(|q| matches!(q, I2cRequest::ReadReg { .. })).count();
    assert_eq!(polls, 201);
    assert_eq!(log.len(), 204);
}

#[test]
fn busy_bit_only_is_checked() {
    let (_, r) = run(|req| match req {
        I2cRequest::ReadReg { .. } => Ok([0xFE, 0]),
        I2cRequest::ReadTemperature => Ok([0x18, 0xFC]),
        _ => Ok([0, 0]),
    });
    assert_eq!(r, Ok(-1000));
}

#[test]
fn bus_errors_abort() {
    let (log, r) = run(|req| match req {
        I2cRequest::WriteReg { reg, .. } if *reg == REG_CTRL => Err(I2cError::Arbitration),
        _ => Ok([0, 0]),
    });
    assert_eq!(r, Err(Stts22hError::I2c(I2cError::Arbitration)));
    assert_eq!(log.len(), 3);
    let (_, r) = run(|req| match req {
        I2cRequest::ReadTemperature => Err(I2cError::Timeout),
        _ => Ok([0, 0]),
    });
    assert_eq!(r, Err(Stts22hError::I2c(I2cError::Timeout)));
}

#[test]
fn error_messages() {
    assert_eq!(
        Stts22hError::I2c(I2cError::Nack).message("Not acknowledged"),
        "I2C communication failed: Not acknowledged"
    );
    assert_eq!(Stts22hError::WhoAmI(0x33).message(""), "WhoAmI failed: 51");
    assert_eq!(Stts22hError::Timeout.message("ignored"), "Timeout");
}
